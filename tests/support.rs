use humpty::thread::pool::Supervisor;
use humpty::util::{id_from, next_id, IdGenerator};

#[test]
fn ids_strictly_increase() {
  let mut g = IdGenerator::new();
  let a = g.next(1000);
  let b = g.next(5000);
  let c = next_id(&mut g, 9000, false);
  assert_eq!(a, 1000u128 << 64);
  assert_eq!(b, (1000u128 << 64) | 1);
  assert!(a < b && b < c);
  let mut bytes = [0u8; 16];
  bytes[0] = 1;
  bytes[15] = 2;
  assert_eq!(id_from(Some(bytes), &mut g, 0), 1 | (2u128 << 120));
  assert_eq!(g.next(0), (1000u128 << 64) | 3);
}

#[test]
fn panicked_workers_are_replaced() {
  let mut s = Supervisor::new(4);
  for id in [0usize, 3, 3, 1, 2] {
    assert!(s.on_exit(id, true));
  }
  assert_eq!(s.size(), 4);
  assert!(!s.on_exit(2, false));
  s.stop();
  assert!(!s.on_exit(1, true));
}

#[test]
fn overload_starts_past_the_threshold() {
  assert!(!humpty::thread::pool::is_overloaded(100));
  assert!(humpty::thread::pool::is_overloaded(101));
}
