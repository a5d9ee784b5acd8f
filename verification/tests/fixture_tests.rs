// The sample workspace file the integration tests edit and query: the
// same record and free function, checked here so that the fixtures the
// tools are pointed at stay as the tests expect them.

use mcp_language_server::tools::get_language_from_path;

pub struct TestStruct {
    pub name: String,
    pub value: i32,
}

impl TestStruct {
    pub fn new(name: &str, value: i32) -> Self {
        Self { name: name.to_string(), value }
    }

    pub fn name(&self) -> &str {
        &self.name
    }

    pub fn value(&self) -> i32 {
        self.value
    }
}

pub fn test_function(input: i32) -> i32 {
    input * 2
}

#[test]
fn test_new() {
    let test = TestStruct::new("test", 42);
    assert_eq!(test.name, "test");
    assert_eq!(test.value, 42);
}

#[test]
fn test_getters() {
    let test = TestStruct::new("test", 42);
    assert_eq!(test.name(), "test");
    assert_eq!(test.value(), 42);
}

#[test]
fn test_function_works() {
    assert_eq!(test_function(21), 42);
}

#[test]
fn fixture_file_is_rust_to_the_tools() {
    assert_eq!(get_language_from_path("tests/fixtures/sample.rs"), "rust");
}
