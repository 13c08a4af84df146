use humpty::http::method::{Method, RequestError};

#[test]
fn test_from_name() {
  assert_eq!(Method::from_name("GET"), Ok(Method::Get));
  assert_eq!(Method::from_name("POST"), Ok(Method::Post));
  assert_eq!(Method::from_name("PUT"), Ok(Method::Put));
  assert_eq!(Method::from_name("DELETE"), Ok(Method::Delete));
  assert_eq!(Method::from_name("get"), Err(RequestError::Request));
  assert_eq!(Method::from_name("method"), Err(RequestError::Request));
  assert_eq!(Method::from_name(""), Err(RequestError::Request));
}

#[test]
fn tokens_outside_the_known_verbs_are_custom() {
  assert_eq!(Method::from_token("PATCH"), Method::Custom("PATCH".to_string()));
  assert_eq!(Method::from_token("OPTIONS"), Method::Options);
  assert_eq!(Method::Custom("GET".to_string()).as_str(), "GET");
  assert_ne!(Method::Custom("GET".to_string()), Method::Get);
}
