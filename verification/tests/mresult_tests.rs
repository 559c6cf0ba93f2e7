use minichain::mresult::MResult;

#[test]
fn create_ok() {
    let ok: MResult<String, String> = MResult::ok("Success".to_string());
    if ok.is_ok() {
        println!("i can create ok")
    }
    let value = ok.unwrap();
    println!("{} was the value created", value)
}

#[test]
fn test_ok() {
    let result: MResult<i32, &str> = MResult::ok(42);
    assert!(result.is_ok());
    assert!(!result.is_err());
    assert_eq!(result.unwrap(), 42);
}

#[test]
fn test_err() {
    let result: MResult<i32, &str> = MResult::err("error");
    assert!(!result.is_ok());
    assert!(result.is_err());
    assert_eq!(result.unwrap_err(), "error");
}
