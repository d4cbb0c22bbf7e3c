use price_paid::framing::{close, frame, lead};

#[test]
fn lead_opens_the_array_then_separates() {
    assert_eq!(lead(0), "[");
    assert_eq!(lead(1), ",");
    assert_eq!(lead(2), ",");
    assert_eq!(lead(usize::MAX), ",");
}

#[test]
fn close_ends_the_array() {
    assert_eq!(close(0), "[]");
    assert_eq!(close(1), "]");
    assert_eq!(close(7), "]");
}

#[test]
fn frame_writes_no_trailing_comma() {
    let elements = vec![String::from("{\"year\":2020}"), String::from("{\"year\":2021}")];
    assert_eq!(frame(&elements), "[{\"year\":2020},{\"year\":2021}]");
    assert_eq!(frame(&vec![String::from("1")]), "[1]");
    assert_eq!(frame(&Vec::new()), "[]");
}

#[test]
fn framed_text_parses_as_json() {
    for count in 0..4 {
        let elements: Vec<String> = (0..count).map(|year| format!("{{\"year\":{}}}", 2020 + year)).collect();
        let parsed: serde_json::Value = serde_json::from_str(&frame(&elements)).unwrap();
        let array = parsed.as_array().unwrap();
        assert_eq!(array.len(), count);
        for (index, element) in array.iter().enumerate() {
            assert_eq!(element.get("year").unwrap().as_i64().unwrap(), 2020 + index as i64);
        }
    }
}

#[test]
fn pieces_written_one_by_one_make_the_same_text() {
    let elements = vec![String::from("1"), String::from("2"), String::from("3")];
    let mut text = String::new();
    for (index, element) in elements.iter().enumerate() {
        text.push_str(lead(index));
        text.push_str(element);
    }
    text.push_str(close(elements.len()));
    assert_eq!(text, frame(&elements));
    assert_eq!(text, "[1,2,3]");
}
