use utils::flat_file::{select_column, read_column, ColumnError};
use utils::html::{join_texts, parse_pre_elements};

#[test]
fn pre_elements_text_in_order() {
    let expected: &str = "SPECIES\tUCSC VERSION\tRELEASE DATE\tRELEASE NAME\tSTATUS\nChicken\tgalGal6\tMar. 2018\tGRCg6\tGallus-gallus-6.0\tAvailable\n";
    let html: &str = "
<!doctype HTML>
<html>
<head>
</head>
<body>
    <pre>SPECIES\tUCSC VERSION\tRELEASE DATE\tRELEASE NAME\tSTATUS\n</pre>
    <pre>Chicken\tgalGal6\tMar. 2018\tGRCg6\tGallus-gallus-6.0\tAvailable\n</pre>
</body>
</html>
";
    assert_eq!(parse_pre_elements(html), expected);
}

#[test]
fn pre_elements_skip_other_text() {
    assert_eq!(parse_pre_elements("<p>no</p><pre>a<b>b</b></pre><div>c</div>"), "ab");
    assert_eq!(parse_pre_elements("<p>nothing preformatted</p>"), "");
}

#[test]
fn join_texts_in_order() {
    let texts = vec![String::from("ab"), String::new(), String::from("c")];
    assert_eq!(join_texts(&texts), "abc");
    assert_eq!(join_texts(&Vec::new()), "");
}

#[test]
fn column_with_headers() {
    let data = "SPECIES\tUCSC VERSION\tRELEASE DATE\nChicken\tgalGal6\tMar. 2018\nElephant\tloxAfr3\tJul. 2009\n";
    let fields = read_column(data.as_bytes(), b'\t', true, 2).unwrap();
    assert_eq!(fields, vec!["Mar. 2018", "Jul. 2009"]);
}

#[test]
fn column_without_headers() {
    let data = "a,b\nc,d\n";
    assert_eq!(read_column(data.as_bytes(), b',', false, 0).unwrap(), vec!["a", "c"]);
    assert_eq!(read_column(data.as_bytes(), b',', true, 1).unwrap(), vec!["d"]);
}

#[test]
fn column_missing_field() {
    let rows = vec![
        vec![String::from("a"), String::from("b")],
        vec![String::from("c")],
    ];
    assert_eq!(select_column(&rows, 1), Err(1));
    assert_eq!(select_column(&rows, 0), Ok(vec![String::from("a"), String::from("c")]));
}

#[test]
fn column_of_bad_text() {
    let uneven = "a,b\nc\n";
    assert!(matches!(read_column(uneven.as_bytes(), b',', false, 0), Err(ColumnError::Csv(_))));
    let short = "a;b\n";
    assert!(matches!(read_column(short.as_bytes(), b';', false, 2), Err(ColumnError::MissingField(0))));
}
