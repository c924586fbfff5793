use nadeshiko::extractor::get;

#[test]
fn clean() {
    // setup
    
    let value = "[]  - 10 []";
    
    // operation
    
    let output = get(value, &[]);
    
    // control
    
    assert_eq!(output, Some(10));
}

#[test]
fn unclean() {
    // setup
    
    let value = "[Imaginary] Fictional 86 - 10 [720p]";
    
    // operation
    
    let output = get(value, &[]);
    
    // control
    
    assert_eq!(output, Some(86));
}

#[test]
fn extractor_zero() {
    // setup
    
    let value = "[Non-existent] Made up - 0 [720p]";
    
    // operation
    
    let output = get(value, &[]);
    
    // control
    
    assert_eq!(output, Some(0));
}

#[test]
fn extractor_negative() {
    // setup
    
    let value = "[Non-existent] Made up - -17 [720p]";
    
    // operation
    
    let output = get(value, &[]);
    
    // control
    
    assert_eq!(output, Some(17));
}

#[test]
fn decimal() {
    // setup
    
    let value = "[Non-existent] Made up - 12.5 [720p]";
    
    // operation
    
    let output = get(value, &[]);
    
    // control
    
    assert_eq!(output, None);
}

#[test]
fn dot() {
    // setup
    
    let value = "[Non-existent] Made up - .24 [720p]";
    
    // operation
    
    let output = get(value, &[]);
    
    // control
    
    assert_eq!(output, Some(24));
}

#[test]
fn whitespace() {
    // setup
    
    let value = "[]  - 2 4 []";
    
    // operation
    
    let output = get(value, &[]);
    
    // control
    
    assert_eq!(output, Some(2));
}

#[test]
fn big() {
    // setup
    
    let value = "[]  - 42949672 []";
    
    // operation
    
    let output = get(value, &[]);
    
    // control
    
    assert_eq!(output, Some(42949672));
}

#[test]
fn overflow() {
    // setup
    
    let value = "[]  - 90223372036854775807 []";
    
    // operation
    
    let output = get(value, &[]);
    
    // control
    
    assert_eq!(output, None);
}

#[test]
fn non_ascii() {
    // setup
    
    let value = "[test] y̆😊aa - 20 [720p]";
    
    // operation
    
    let output = get(value, &[]);
    
    // control
    
    assert_eq!(output, Some(20));
}

#[test]
fn extractor_empty() {
    // setup
    
    let value = "";
    
    // operation
    
    let output = get(value, &[]);
    
    // control
    
    assert_eq!(output, None);
}

#[test]
fn valid_pieces() {
    // setup
    
    let value = "[Imaginary] Fictional 86 - 10 [720p]";
    
    // operation
    
    let output = get(value, &["Imaginary", "Fictional 86", "720p"]);
    
    // control
    
    assert_eq!(output, Some(10));
}

#[test]
fn invalid_pieces() {
    // setup
    
    let value = "[Imaginary] Fictional 86 - 10 [720p]";
    
    // operation
    
    let output = get(value, &["Non-existent", "Made up", "74"]);
    
    // control
    
    assert_eq!(output, Some(86));
}

#[test]
fn pieces_order_and_absent_pieces_do_not_matter() {
    let value = "[Group] Title 2 - 05 [1080p].mkv";
    let expected = get(value, &["[Group]", "Title 2", "[1080p]"]);
    assert_eq!(expected, Some(5));
    assert_eq!(get(value, &["[1080p]", "Title 2", "[Group]"]), expected);
    assert_eq!(get(value, &["Title 2", "", "[Group]", "[720p]", "[1080p]", "Title 2"]), expected);
    assert_eq!(get(value, &["[Group]", "[1080p]"]), Some(2));
}
