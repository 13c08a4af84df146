//! HTTP request methods.
use vstd::prelude::*;

verus! {

/// The error returned when a method name is not one of the known verbs.
#[derive(Debug, Clone, Copy, PartialEq, Eq, Structural)]
pub enum RequestError {
    /// The request could not be understood.
    Request,
}

/// Represents an HTTP method: one of the common verbs, or any other token.
#[derive(Debug, Clone)]
pub enum Method {
    /// The `GET` method.
    Get,
    /// The `POST` method.
    Post,
    /// The `PUT` method.
    Put,
    /// The `DELETE` method.
    Delete,
    /// The `OPTIONS` method.
    Options,
    /// Any other method token, kept as written.
    Custom(String),
}

/// The wire name of a method.
pub open spec fn name_of(m: Method) -> Seq<char> {
    match m {
        Method::Get => "GET"@,
        Method::Post => "POST"@,
        Method::Put => "PUT"@,
        Method::Delete => "DELETE"@,
        Method::Options => "OPTIONS"@,
        Method::Custom(s) => s@,
    }
}

/// Whether a token is the wire name of one of the known verbs.
pub open spec fn is_known_name(name: Seq<char>) -> bool {
    name == "GET"@ || name == "POST"@ || name == "PUT"@ || name == "DELETE"@ || name == "OPTIONS"@
}

/// Whether `m` is the method that the wire token `name` stands for: the
/// known verb of that name, or else a custom method holding the token.
pub open spec fn is_method_of(m: Method, name: Seq<char>) -> bool {
    &&& name_of(m) == name
    &&& (m is Custom <==> !is_known_name(name))
}

impl Method {
    /// Attempts to convert from the HTTP verb into one of the known verbs.
    pub fn from_name(name: &str) -> (r: Result<Method, RequestError>)
        ensures
            is_known_name(name@) <==> r is Ok,
            r is Ok ==> is_method_of(r->Ok_0, name@),
            r is Err ==> r->Err_0 == RequestError::Request,
            name@ == "GET"@ ==> r is Ok && r->Ok_0 is Get,
            name@ == "POST"@ ==> r is Ok && r->Ok_0 is Post,
            name@ == "PUT"@ ==> r is Ok && r->Ok_0 is Put,
            name@ == "DELETE"@ ==> r is Ok && r->Ok_0 is Delete,
            name@ == "OPTIONS"@ ==> r is Ok && r->Ok_0 is Options,
    {
        let m = Method::from_token(name);
        if m.is_custom() {
            Err(RequestError::Request)
        } else {
            Ok(m)
        }
    }

    /// Converts a method token from a request line into a method.
    pub fn from_token(name: &str) -> (r: Method)
        ensures
            is_method_of(r, name@),
            name@ == "GET"@ ==> r is Get,
            name@ == "POST"@ ==> r is Post,
            name@ == "PUT"@ ==> r is Put,
            name@ == "DELETE"@ ==> r is Delete,
            name@ == "OPTIONS"@ ==> r is Options,
    {
        proof {
            reveal_strlit("GET");
            reveal_strlit("POST");
            reveal_strlit("PUT");
            reveal_strlit("DELETE");
            reveal_strlit("OPTIONS");
            assert("GET"@.len() == 3 && "PUT"@.len() == 3 && "POST"@.len() == 4);
            assert("DELETE"@.len() == 6 && "OPTIONS"@.len() == 7);
            assert("GET"@[0] != "PUT"@[0]);
        }
        if str_eq(name, "GET") {
            Method::Get
        } else if str_eq(name, "POST") {
            Method::Post
        } else if str_eq(name, "PUT") {
            Method::Put
        } else if str_eq(name, "DELETE") {
            Method::Delete
        } else if str_eq(name, "OPTIONS") {
            Method::Options
        } else {
            Method::Custom(name.to_string())
        }
    }

    /// Whether this is a method outside the known verbs.
    pub fn is_custom(&self) -> (r: bool)
        ensures
            r == (*self is Custom),
    {
        match self {
            Method::Custom(_) => true,
            _ => false,
        }
    }

    /// Whether this is the `GET` method.
    pub fn is_get(&self) -> (r: bool)
        ensures
            r == (*self is Get),
    {
        match self {
            Method::Get => true,
            _ => false,
        }
    }

    /// The wire name of the method.
    pub fn as_str(&self) -> (r: &str)
        ensures
            r@ == name_of(*self),
    {
        match self {
            Method::Get => "GET",
            Method::Post => "POST",
            Method::Put => "PUT",
            Method::Delete => "DELETE",
            Method::Options => "OPTIONS",
            Method::Custom(s) => s.as_str(),
        }
    }
}

/// Compares two strings character by character.
pub fn str_eq(a: &str, b: &str) -> (r: bool)
    ensures
        r == (a@ == b@),
{
    let ab = a.as_bytes();
    let bb = b.as_bytes();
    proof {
        vstd::utf8::encode_utf8_decode_utf8(a@);
        vstd::utf8::encode_utf8_decode_utf8(b@);
    }
    if ab.len() != bb.len() {
        return false;
    }
    let mut i: usize = 0;
    while i < ab.len()
        invariant
            ab@.len() == bb@.len(),
            ab@ == vstd::utf8::encode_utf8(a@),
            bb@ == vstd::utf8::encode_utf8(b@),
            i <= ab@.len(),
            forall|j: int| 0 <= j < i ==> ab@[j] == bb@[j],
        decreases ab@.len() - i,
    {
        if ab[i] != bb[i] {
            return false;
        }
        i = i + 1;
    }
    assert(ab@ == bb@);
    true
}

} // verus!

verus! {

impl PartialEq for Method {
    fn eq(&self, other: &Method) -> (r: bool) {
        self.is_custom() == other.is_custom() && str_eq(self.as_str(), other.as_str())
    }
}

impl vstd::std_specs::cmp::PartialEqSpecImpl for Method {
    open spec fn obeys_eq_spec() -> bool {
        true
    }

    open spec fn eq_spec(&self, other: &Method) -> bool {
        (*self is Custom) == (*other is Custom) && name_of(*self) == name_of(*other)
    }
}

impl Eq for Method {
}

} // verus!
