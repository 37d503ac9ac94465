use sedit::reader::read;
use sedit::reader::Datum;

fn data(text: &str) -> Vec<Datum> {
    read(text).unwrap().data
}

fn atom(text: &str) -> Datum {
    Datum::Atom(text.to_string())
}

#[test]
fn atoms() {
    assert_eq!(data("x"), vec![atom("x")]);
    assert_eq!(data("-1"), vec![atom("-1")]);
    assert_eq!(data("#t #f"), vec![atom("#t"), atom("#f")]);
    assert_eq!(data("#!fold-case"), vec![atom("#!fold-case")]);
    assert_eq!(data("..."), vec![atom("...")]);
    assert_eq!(data("."), vec![atom(".")]);
    assert_eq!(data("#[a-z]"), vec![atom("#[a-z]")]);
    assert_eq!(data("#/ab+/"), vec![atom("#/ab+/")]);
}

#[test]
fn characters() {
    assert_eq!(data(r"#\a"), vec![atom(r"#\a")]);
    assert_eq!(data(r"#\("), vec![atom(r"#\(")]);
    assert_eq!(data(r"#\;"), vec![atom(r"#\;")]);
    assert_eq!(data(r"#\ "), vec![atom(r"#\ ")]);
    assert_eq!(data(r"#\space"), vec![atom(r"#\space")]);
}

#[test]
fn strings_and_pipes() {
    assert_eq!(data(r#""a b""#), vec![atom(r#""a b""#)]);
    assert_eq!(data(r#""a\"b" x"#), vec![atom(r#""a\"b""#), atom("x")]);
    assert_eq!(data(r#""(a ; b)""#), vec![atom(r#""(a ; b)""#)]);
    assert_eq!(data("|foo bar|"), vec![atom("|foo bar|")]);
}

#[test]
fn lists() {
    assert_eq!(data("()"), vec![Datum::List(vec![])]);
    assert_eq!(data("(a b)"), vec![Datum::List(vec![atom("a"), atom("b")])]);
    assert_eq!(data("(a . b)"), vec![Datum::List(vec![atom("a"), atom("."), atom("b")])]);
}

#[test]
fn reader_markers() {
    assert_eq!(
        data("'(a b)"),
        vec![Datum::Marker("'".to_string(), Box::new(Datum::List(vec![atom("a"), atom("b")])))]
    );
    assert_eq!(
        data("#(1 2)"),
        vec![Datum::Marker("#".to_string(), Box::new(Datum::List(vec![atom("1"), atom("2")])))]
    );
    assert_eq!(data(",@x"), vec![Datum::Marker(",@".to_string(), Box::new(atom("x")))]);
    assert_eq!(data("#0=(a)"), vec![Datum::Marker("#0=".to_string(), Box::new(Datum::List(vec![atom("a")])))]);
    assert!(!matches!(&data("'x")[0], Datum::List(_)));
}

#[test]
fn comments() {
    assert_eq!(data("; head\nx"), vec![Datum::Comment("; head".to_string()), atom("x")]);
    let reading = read("(a ; note\n b)").unwrap();
    assert_eq!(reading.hoisted, 1);
    assert_eq!(
        reading.data,
        vec![Datum::Comment("; note".to_string()), Datum::List(vec![atom("a"), atom("b")])]
    );
    let reading = read("#| a #| b |# c |# x").unwrap();
    assert_eq!(reading.hoisted, 0);
    assert_eq!(reading.data, vec![Datum::Comment("#| a #| b |# c |#".to_string()), atom("x")]);
    assert_eq!(data("#;x"), vec![Datum::Marker("#;".to_string(), Box::new(atom("x")))]);
}

#[test]
fn errors() {
    assert!(read("(a").is_err());
    assert!(read("a)").is_err());
    assert!(read("\"a").is_err());
    assert!(read("#| a").is_err());
}
