use stats_exporter::docker::frame_records;
use stats_exporter::text::{chars_of, slice_of, string_of};

fn joined_by_std(output: &str) -> String {
    format!("[{}]", output.lines().collect::<Vec<&str>>().join(","))
}

#[test]
fn frame_joins_lines_with_commas() {
    assert_eq!(frame_records("{\"a\": 1}\n{\"b\": 2}\n"), "[{\"a\": 1},{\"b\": 2}]");
}

#[test]
fn frame_of_nothing_is_an_empty_array() {
    assert_eq!(frame_records(""), "[]");
    assert_eq!(frame_records("\n"), "[]");
}

#[test]
fn frame_drops_carriage_returns_before_newlines() {
    assert_eq!(frame_records("a\r\nb\r\n"), "[a,b]");
    assert_eq!(frame_records("a\rb\nc\r"), "[a\rb,c\r]");
}

#[test]
fn frame_keeps_empty_lines() {
    assert_eq!(frame_records("a\n\nb"), "[a,,b]");
    assert_eq!(frame_records("\n\n"), "[,]");
}

#[test]
fn frame_agrees_with_the_lines_of_std() {
    for output in [
        "",
        "\n",
        "\r\n",
        "\r",
        "a",
        "a\n",
        "a\nb",
        "a\nb\n",
        "a\r\nb\r\n",
        "a\r\r\nb",
        "\n\na\n\n",
        "a\r",
        "a\n\r",
        "\r\n\r\n",
        "{\"container\": \"web\", \"cpu_perc\": \"0.5%\"}\n{\"container\": \"db\"}\n",
        "caf\u{e9}\n\u{4eac}\n",
    ] {
        assert_eq!(frame_records(output), joined_by_std(output), "for {:?}", output);
    }
}

#[test]
fn chars_of_gives_the_characters() {
    assert_eq!(chars_of("a\u{e9}\u{4eac}"), vec!['a', '\u{e9}', '\u{4eac}']);
    assert_eq!(chars_of(""), Vec::<char>::new());
}

#[test]
fn string_of_and_slice_of_take_a_range() {
    let chars = chars_of("h\u{e9}llo");
    assert_eq!(string_of(&chars, 1, 4), "\u{e9}ll");
    assert_eq!(slice_of(&chars, 1, 4), vec!['\u{e9}', 'l', 'l']);
    assert_eq!(string_of(&chars, 2, 2), "");
    assert_eq!(string_of(&chars, 0, 5), "h\u{e9}llo");
}
