use nadeshiko::number::first_number;

#[test]
fn first_number_valid() {
    // setup
    
    let value = b"[Example] Placeholder - 17 (720p) [83538700].mkv";
    
    // operation
    
    let output = first_number(value);
    
    // control
    
    assert_eq!(output, Some(17));
}

#[test]
fn first_number_zero() {
    // setup
    
    let value = b"[Example] Placeholder - 0 (720p) [83538700].mkv";
    
    // operation
    
    let output = first_number(value);
    
    // control
    
    assert_eq!(output, Some(0));
}

#[test]
fn first_number_negative() {
    // setup
    
    let value = b"[Example] Placeholder - -13 (720p) [83538700].mkv";
    
    // operation
    
    let output = first_number(value);
    
    // control
    
    assert_eq!(output, Some(13));
}

#[test]
fn limit() {
    // setup
    
    let value = b"[Example] Placeholder - 18446744073709551615 (720p) [83538700].mkv";
    
    // operation
    
    let output = first_number(value);
    
    // control
    
    assert_eq!(output, Some(18446744073709551615));
}

#[test]
fn too_big() {
    // setup
    
    let value = b"[Example] Placeholder - 18446744073709551616 (720p) [83538700].mkv";
    
    // operation
    
    let output = first_number(value);
    
    // control
    
    assert_eq!(output, None);
}

#[test]
fn no_number() {
    // setup
    
    let value = b"[Example] Placeholder - (p) [AGDFASZ].mkv";
    
    // operation
    
    let output = first_number(value);
    
    // control
    
    assert_eq!(output, None);
}
