//! The passing cases of the test-writing walkthrough.  Its deliberately
//! failing demonstrations — a bare panic, a sum asserted wrong, a greeting
//! that omits the name — stay out: a suite that must pass cannot hold
//! tests written to fail.

use std::error::Error;
use std::sync::Arc;

use snippets::add;
use snippets::basics::Rectangle;
use snippets::runner::{
    execute_boxed_trait_object, execute_generics, execute_trait_object, FixedStatus, Shell,
};

#[test]
fn it_works() {
    let result = add(2, 2);
    assert_eq!(result, 4);
}

#[test]
fn main_it_works() {
    let result = 2 + 2;
    assert_eq!(result, 4);
}

fn add_two(a: i32) -> i32 {
    a + 2
}

#[test]
fn it_adds_two_1() {
    assert_eq!(add_two(4), 6)
}

#[test]
fn it_works_using_result() -> Result<(), String> {
    if 2 + 2 == 4 {
        Ok(())
    } else {
        Err(String::from("two plus two does not equal 4"))
    }
}

#[test]
fn larger_can_hold_smaller() {
    let larger = Rectangle {
        width: 8,
        height: 7,
    };
    let smaller = Rectangle {
        width: 5,
        height: 1,
    };
    assert!(larger.can_hold(&smaller))
}

#[test]
fn smaller_cannot_hold_larger() {
    let larger = Rectangle {
        width: 8,
        height: 7,
    };
    let smaller = Rectangle {
        width: 5,
        height: 1,
    };
    assert!(!smaller.can_hold(&larger))
}

struct Guess {
    #[allow(dead_code)]
    value: i32,
}

impl Guess {
    fn new(value: i32) -> Guess {
        if !(1..=100).contains(&value) {
            panic!("Guess value must be between 1 and 100, got {}.", value);
        }

        Guess { value }
    }
}

#[test]
#[should_panic]
fn greater_than_100() {
    Guess::new(200);
}

#[test]
#[should_panic(expected = "Guess value must be between 1 and 100")]
fn greater_than_100_with_expected() {
    Guess::new(200);
}

#[test]
fn execute_shall_work() {
    let cmd = FixedStatus { status: Some(0) };
    let result = execute_generics(&cmd).unwrap();
    assert_eq!(result, Some(0));
    let result = execute_trait_object(&cmd).unwrap();
    assert_eq!(result, Some(0));
    let boxed = Box::new(cmd);
    let result = execute_boxed_trait_object(boxed).unwrap();
    assert_eq!(result, Some(0));
}

#[test]
fn shell_describes_its_command() {
    let cmd = Shell::new("ls", &[]);
    assert_eq!(cmd.cmd, "ls");
    assert!(cmd.args.is_empty());
    let args = ["-l", "-a"];
    let cmd = Shell::new("ls", &args);
    assert_eq!(cmd.args, &["-l", "-a"]);
}

trait Turn {
    fn turn(self);
}

#[derive(Debug)]
struct Circle;

impl Turn for &Circle {
    fn turn(self) {
        println!("Circle");
    }
}

#[test]
fn test2() {
    let c1 = Circle;
    Turn::turn(&c1);
    <&Circle as Turn>::turn(&c1);
    println!("{:?}", c1)
}

type KvError = Box<dyn Error + Send + Sync>;

struct Value(#[allow(dead_code)] i32);

struct Kvpair(#[allow(dead_code)] i32, #[allow(dead_code)] i32);

trait Storage: Send + Sync + 'static {
    fn get(&self, table: &str, key: &str) -> Result<Option<Value>, KvError>;
    fn set(&self, table: &str, key: String, value: Value) -> Result<Option<Value>, KvError>;
    fn contains(&self, table: &str, key: &str) -> Result<bool, KvError>;
    fn del(&self, table: &str, key: &str) -> Result<Option<Value>, KvError>;
    fn get_all(&self, table: &str) -> Result<Vec<Kvpair>, KvError>;
    fn get_iter(&self, table: &str) -> Result<Box<dyn Iterator<Item = Kvpair>>, KvError>;
}

struct Service {
    store: Arc<dyn Storage>,
}

impl Service {
    fn new<S: Storage>(store: S) -> Self {
        Self {
            store: Arc::new(store),
        }
    }
}

impl Clone for Service {
    fn clone(&self) -> Self {
        Self {
            store: Arc::clone(&self.store),
        }
    }
}

struct EmptyStorage;

impl Storage for EmptyStorage {
    fn get(&self, _table: &str, _key: &str) -> Result<Option<Value>, KvError> {
        Ok(None)
    }
    fn set(&self, _table: &str, _key: String, _value: Value) -> Result<Option<Value>, KvError> {
        Ok(None)
    }
    fn contains(&self, _table: &str, _key: &str) -> Result<bool, KvError> {
        Ok(false)
    }
    fn del(&self, _table: &str, _key: &str) -> Result<Option<Value>, KvError> {
        Ok(None)
    }
    fn get_all(&self, _table: &str) -> Result<Vec<Kvpair>, KvError> {
        Ok(Vec::new())
    }
    fn get_iter(&self, _table: &str) -> Result<Box<dyn Iterator<Item = Kvpair>>, KvError> {
        Ok(Box::new(Vec::new().into_iter()))
    }
}

#[test]
fn kv_server_example() {
    let service = Service::new(EmptyStorage);
    let cloned = service.clone();
    let _ = cloned.store.contains("table", "key");
}
