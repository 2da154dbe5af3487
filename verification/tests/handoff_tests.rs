use daisy::config::{DaisyConfig, Error, HostSpec};
use daisy::handoff::{encode_for_handoff, load_from_str, load_from_stream_text};

const DOC: &str = "destination_command = \"cat\"\ndestination_command_is_persistent = true\nhosts = [\"alice@a.example\", \"bob@b.example\"]\n";

fn assert_same_config(a: &DaisyConfig, b: &DaisyConfig) {
    assert_eq!(a.position_index, b.position_index);
    assert_eq!(a.destination_command, b.destination_command);
    assert_eq!(
        a.destination_command_is_persistent,
        b.destination_command_is_persistent
    );
    assert_eq!(a.hosts.len(), b.hosts.len());
    for i in 0..a.hosts.len() {
        assert_eq!(a.hosts[i].username, b.hosts[i].username);
        assert_eq!(a.hosts[i].host_address, b.hosts[i].host_address);
    }
}

#[test]
fn stream_with_exact_line_count_equals_direct_parse() {
    let stream = format!("TOML:3\n{}", DOC);
    let from_stream = load_from_stream_text(&stream).unwrap();
    let direct = load_from_str(DOC).unwrap();
    assert_same_config(&from_stream, &direct);
    assert_eq!(from_stream.position_index, 0);
    assert_eq!(from_stream.destination_command, "cat");
    assert!(from_stream.destination_command_is_persistent);
    assert_eq!(from_stream.hosts.len(), 2);
    assert_eq!(from_stream.hosts[0].username, "alice");
    assert_eq!(from_stream.hosts[1].host_address, "b.example");
}

#[test]
fn truncated_stream_is_an_io_error() {
    let stream = "TOML:3\ndestination_command = \"cat\"\ndestination_command_is_persistent = true\n";
    assert_eq!(load_from_stream_text(stream), Err(Error::IOError));
}

#[test]
fn marker_without_colon_is_rejected_before_any_parsing() {
    let stream = format!("TOML3\n{}", DOC);
    assert_eq!(
        load_from_stream_text(&stream),
        Err(Error::InvalidFormatMarker(String::from("TOML3")))
    );
}

#[test]
fn marker_with_non_numeric_count_is_rejected() {
    let stream = format!("TOML:three\n{}", DOC);
    assert_eq!(
        load_from_stream_text(&stream),
        Err(Error::InvalidFormatMarker(String::from("TOML:three")))
    );
}

#[test]
fn marker_without_trailing_newline_is_rejected() {
    assert_eq!(
        load_from_stream_text("TOML:3"),
        Err(Error::InvalidFormatMarker(String::from("TOML:3")))
    );
}

#[test]
fn empty_stream_is_rejected_as_a_bad_marker() {
    assert_eq!(
        load_from_stream_text(""),
        Err(Error::InvalidFormatMarker(String::new()))
    );
}

#[test]
fn marker_with_oversized_count_is_rejected() {
    let stream = format!("TOML:99999999999999999999999\n{}", DOC);
    assert_eq!(
        load_from_stream_text(&stream),
        Err(Error::InvalidFormatMarker(String::from(
            "TOML:99999999999999999999999"
        )))
    );
}

#[test]
fn wrong_format_name_is_rejected() {
    let stream = format!("YAML:3\n{}", DOC);
    assert_eq!(
        load_from_stream_text(&stream),
        Err(Error::InvalidFormatMarker(String::from("YAML:3")))
    );
}

#[test]
fn trailing_lines_after_the_declared_count_are_ignored() {
    let stream = format!("TOML:3\n{}this is not toml at all\n", DOC);
    let c = load_from_stream_text(&stream).unwrap();
    assert_eq!(c.hosts.len(), 2);
}

#[test]
fn document_that_is_not_toml_is_a_parse_error() {
    assert_eq!(
        load_from_stream_text("TOML:1\nnot = = valid\n"),
        Err(Error::TOMLError)
    );
    assert_eq!(load_from_str("not = = valid"), Err(Error::TOMLError));
}

#[test]
fn missing_fields_are_a_parse_error() {
    assert_eq!(load_from_str("hosts = [\"a@b\"]\n"), Err(Error::TOMLError));
}

#[test]
fn empty_host_list_is_a_parse_error() {
    let doc = "destination_command = \"cat\"\ndestination_command_is_persistent = false\nhosts = []\n";
    assert_eq!(load_from_str(doc), Err(Error::TOMLError));
}

#[test]
fn position_index_defaults_to_zero() {
    let c = load_from_str(DOC).unwrap();
    assert_eq!(c.position_index, 0);
}

#[test]
fn explicit_position_index_is_kept() {
    let doc = format!("position_index = 2\n{}", DOC);
    let c = load_from_str(&doc).unwrap();
    assert_eq!(c.position_index, 2);
}

#[test]
fn negative_position_index_is_a_parse_error() {
    let doc = format!("position_index = -1\n{}", DOC);
    assert_eq!(load_from_str(&doc), Err(Error::TOMLError));
}

#[test]
fn handoff_roundtrip_preserves_the_chain() {
    let c = DaisyConfig {
        position_index: 2,
        destination_command: String::from("figlet -k"),
        destination_command_is_persistent: true,
        hosts: vec![
            HostSpec {
                host_address: String::from("a.example"),
                username: String::from("alice"),
            },
            HostSpec {
                host_address: String::from("b.example:2222"),
                username: String::from("bob"),
            },
        ],
    };
    let frame = encode_for_handoff(&c).expect("the handoff frame must be written");
    let back = load_from_stream_text(&frame).expect("the frame must load");
    assert_same_config(&back, &c);
}

#[test]
fn handoff_of_the_next_hop_advances_the_index() {
    let c = load_from_str(DOC).unwrap();
    let frame = encode_for_handoff(&c.next_hop_config()).unwrap();
    let back = load_from_stream_text(&frame).unwrap();
    assert_eq!(back.position_index, 1);
    assert_eq!(back.hosts.len(), 2);
}

#[test]
fn frame_is_owed_up_to_the_writers_integer_range() {
    let mut c = load_from_str(DOC).unwrap();
    c.position_index = i64::MAX as usize;
    let frame = encode_for_handoff(&c).expect("an index that fits must be framed");
    let back = load_from_stream_text(&frame).unwrap();
    assert_eq!(back.position_index, i64::MAX as usize);
    c.position_index = usize::MAX;
    assert!(encode_for_handoff(&c).is_none());
}

#[test]
fn marker_line_count_reads_the_declared_count() {
    assert_eq!(daisy::handoff::marker_line_count("TOML:12"), Some(12));
    assert_eq!(daisy::handoff::marker_line_count("TOML:0"), Some(0));
    assert_eq!(daisy::handoff::marker_line_count("TOML:"), None);
    assert_eq!(daisy::handoff::marker_line_count("TOML12"), None);
    assert_eq!(daisy::handoff::marker_line_count("toml:3"), None);
    assert_eq!(daisy::handoff::marker_line_count(""), None);
}

#[test]
fn handoff_frame_declares_its_own_line_count() {
    let c = load_from_str(DOC).unwrap();
    let frame = encode_for_handoff(&c).unwrap();
    let first_line = frame.split('\n').next().unwrap();
    let declared: usize = first_line.strip_prefix("TOML:").unwrap().parse().unwrap();
    let body = &frame[first_line.len() + 1..];
    let body_lines = body.split_inclusive('\n').count();
    assert_eq!(declared, body_lines);
}
