use std::fmt;

use serde::ser::{Serialize, SerializeStruct, Serializer};

struct MyStruct {
    name: String,
    age: u32,
    message: String,
}

impl Serialize for MyStruct {
    fn serialize<S: Serializer>(&self, serializer: S) -> Result<S::Ok, S::Error> {
        let mut s = serializer.serialize_struct("MyStruct", 2)?;
        s.serialize_field("name", &self.name)?;
        s.serialize_field("age", &self.age)?;
        s.end()
    }
}

impl fmt::Display for MyStruct {
    fn fmt(&self, f: &mut fmt::Formatter<'_>) -> fmt::Result {
        let text = serde_json::to_string(self).map_err(|_| fmt::Error)?;
        f.write_str(&text)
    }
}

#[test]
fn json_display_it_works() {
    let my_struct = MyStruct {
        name: String::from("Alice"),
        age: 30,
        message: String::from("Hello, world!"),
    };
    println!("my_struct.message: {}", my_struct.message);
    assert_eq!(format!("{}", my_struct), r#"{"name":"Alice","age":30}"#);
}
