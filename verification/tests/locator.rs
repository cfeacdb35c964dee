use datt::sflix::locator::{
    cache_key, generate_url, segment_name, standard_format, FormatRing, CACHE_KEY_WIDTH,
    STANDARD_RING_LEN,
};
use datt::text::parse_usize;

#[test]
fn segment_name_pairs_index_and_format() {
    assert_eq!(segment_name(0, 0), "seg-0-v1-a1.html");
    assert_eq!(segment_name(17, 1), "seg-17-v1-a1.js");
    assert_eq!(segment_name(305, 7), "seg-305-v1-a1.jpg");
}

#[test]
fn segment_name_of_the_largest_index() {
    assert_eq!(segment_name(usize::MAX, 2), format!("seg-{}-v1-a1.css", usize::MAX));
}

#[test]
fn standard_ring_cycles_through_eight_formats() {
    let expected = ["html", "js", "css", "txt", "png", "webp", "ico", "jpg"];
    assert_eq!(STANDARD_RING_LEN, 8);
    let ring = FormatRing::standard();
    assert_eq!(ring.len(), 8);
    for position in 0..8 {
        assert_eq!(standard_format(position), expected[position]);
        assert_eq!(ring.format(position), expected[position]);
        assert_eq!(ring.segment_name(9, position), segment_name(9, position));
    }
}

#[test]
fn generate_url_joins_with_a_slash() {
    assert_eq!(
        generate_url("https://host/720", "seg-1-v1-a1.js"),
        "https://host/720/seg-1-v1-a1.js"
    );
    assert_eq!(generate_url("", ""), "/");
    assert_eq!(generate_url("https://host/720/", "x"), "https://host/720//x");
}

#[test]
fn cache_key_is_zero_padded_to_eight() {
    assert_eq!(CACHE_KEY_WIDTH, 8);
    assert_eq!(cache_key(0), "00000000");
    assert_eq!(cache_key(42), "00000042");
    assert_eq!(cache_key(99999999), "99999999");
    assert_eq!(cache_key(123456789), "123456789");
}

#[test]
fn cache_key_does_not_depend_on_the_format() {
    let ring = FormatRing::standard();
    let names: Vec<String> = (0..ring.len()).map(|p| ring.segment_name(5, p)).collect();
    assert_eq!(names.len(), 8);
    assert!(names.iter().all(|name| name.starts_with("seg-5-v1-a1.")));
    assert_eq!(cache_key(5), "00000005");
}

#[test]
fn cache_key_reads_back_as_its_index() {
    for index in [0usize, 1, 9, 10, 99999999, 100000000, usize::MAX] {
        assert_eq!(parse_usize(&cache_key(index)), Some(index));
    }
}

#[test]
fn ring_of_three_names_segments() {
    let ring = FormatRing::new(vec!["a".to_string(), "b".to_string(), "c".to_string()]).unwrap();
    assert_eq!(ring.len(), 3);
    assert_eq!(ring.format(0), "a");
    assert_eq!(ring.segment_name(4, 1), "seg-4-v1-a1.b");
    assert_eq!(ring.segment_url("http://h", 4, 2), "http://h/seg-4-v1-a1.c");
}

#[test]
fn ring_without_formats_is_refused() {
    assert!(FormatRing::new(Vec::new()).is_none());
}
