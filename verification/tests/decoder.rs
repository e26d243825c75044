use json_array_stream::decoder::JsonArrayStream;

fn feed_whole(input: &str) -> Vec<String> {
    let mut decoder = JsonArrayStream::new();
    decoder.process_chunk(input)
}

fn feed_in_pieces(input: &str, size: usize) -> Vec<String> {
    let chars: Vec<char> = input.chars().collect();
    let mut decoder = JsonArrayStream::new();
    let mut objects = Vec::new();
    for piece in chars.chunks(size) {
        let chunk: String = piece.iter().collect();
        objects.extend(decoder.process_chunk(&chunk));
    }
    objects
}

const SAMPLE: &str = " \n[ {\"name\":\"a\\\"b\",\"tags\":{\"x\":{\"y\":\"}{\"}}} ,\n {\"n\":[1,2,{\"z\":\"\\\\n\"}]},{\"é\":\"日本語 {\"} ]\n";

#[test]
fn braces_inside_a_string_do_not_count() {
    let objects = feed_whole("[{\"a\":\"}{\"}]");
    assert_eq!(objects, vec!["{\"a\":\"}{\"}".to_string()]);
}

#[test]
fn separators_and_white_space_are_dropped() {
    let objects = feed_whole("[ {\"a\":1} , {\"b\":2} ]");
    assert_eq!(objects, vec!["{\"a\":1}".to_string(), "{\"b\":2}".to_string()]);
}

#[test]
fn empty_array_gives_nothing() {
    let mut decoder = JsonArrayStream::new();
    assert!(decoder.process_chunk("[]").is_empty());
    assert!(!decoder.has_partial());
}

#[test]
fn empty_chunk_gives_nothing() {
    let mut decoder = JsonArrayStream::new();
    assert!(decoder.process_chunk("").is_empty());
    assert!(decoder.process_chunk("[{\"a\"").is_empty());
    assert!(decoder.process_chunk("").is_empty());
    assert_eq!(decoder.process_chunk(":1}]"), vec!["{\"a\":1}".to_string()]);
}

#[test]
fn escaped_quote_stays_inside_the_string() {
    let objects = feed_whole("[{\"a\":\"x\\\"}y\"},{\"b\":2}]");
    assert_eq!(objects, vec!["{\"a\":\"x\\\"}y\"}".to_string(), "{\"b\":2}".to_string()]);
}

#[test]
fn nested_objects_come_out_with_their_parent() {
    let objects = feed_whole("[{\"a\":{\"b\":{\"c\":1}}},{\"d\":{}}]");
    assert_eq!(objects, vec!["{\"a\":{\"b\":{\"c\":1}}}".to_string(), "{\"d\":{}}".to_string()]);
}

#[test]
fn inner_white_space_is_kept() {
    let objects = feed_whole("[\n  { \"a\" : 1,\n\t\"b\" : [ 1, 2 ] }\n]");
    assert_eq!(objects, vec!["{ \"a\" : 1,\n\t\"b\" : [ 1, 2 ] }".to_string()]);
}

#[test]
fn white_space_before_the_bracket_is_skipped() {
    let objects = feed_whole(" \t\r\n\u{a0}\u{3000}[{\"a\":[1]}]");
    assert_eq!(objects, vec!["{\"a\":[1]}".to_string()]);
}

#[test]
fn bracket_inside_an_object_is_kept_once_the_array_is_open() {
    let objects = feed_whole("[{\"a\":[[1],[2]]}]");
    assert_eq!(objects, vec!["{\"a\":[[1],[2]]}".to_string()]);
}

#[test]
fn every_chunk_size_gives_the_same_objects() {
    let whole = feed_whole(SAMPLE);
    assert_eq!(whole.len(), 3);
    let count = SAMPLE.chars().count();
    for size in 1..=count {
        assert_eq!(feed_in_pieces(SAMPLE, size), whole);
    }
}

#[test]
fn every_cut_in_two_gives_the_same_objects() {
    let whole = feed_whole(SAMPLE);
    let chars: Vec<char> = SAMPLE.chars().collect();
    for cut in 0..=chars.len() {
        let first: String = chars[..cut].iter().collect();
        let second: String = chars[cut..].iter().collect();
        let mut decoder = JsonArrayStream::new();
        let mut objects = decoder.process_chunk(&first);
        objects.extend(decoder.process_chunk(&second));
        assert_eq!(objects, whole);
    }
}

#[test]
fn objects_parse_to_the_elements_of_the_array() {
    let array: serde_json::Value = serde_json::from_str(SAMPLE).unwrap();
    let elements = array.as_array().unwrap();
    let objects = feed_in_pieces(SAMPLE, 7);
    assert_eq!(objects.len(), elements.len());
    for (text, element) in objects.iter().zip(elements.iter()) {
        let parsed: serde_json::Value = serde_json::from_str(text).unwrap();
        assert_eq!(&parsed, element);
    }
}

#[test]
fn objects_come_out_as_they_stand_in_the_stream() {
    let objects = feed_whole(SAMPLE);
    let mut from = 0;
    for text in &objects {
        let at = SAMPLE[from..].find(text.as_str()).unwrap();
        from += at + text.len();
    }
    assert_eq!(objects[0], "{\"name\":\"a\\\"b\",\"tags\":{\"x\":{\"y\":\"}{\"}}}");
    assert_eq!(objects[1], "{\"n\":[1,2,{\"z\":\"\\\\n\"}]}");
    assert_eq!(objects[2], "{\"é\":\"日本語 {\"}");
}

#[test]
fn truncated_object_is_held_and_never_handed_out() {
    let mut decoder = JsonArrayStream::new();
    let objects = decoder.process_chunk("[{\"a\":1},{\"b\":");
    assert_eq!(objects, vec!["{\"a\":1}".to_string()]);
    assert!(decoder.has_partial());
}

#[test]
fn closing_brace_with_no_object_open_is_dropped() {
    let mut decoder = JsonArrayStream::new();
    let objects = decoder.process_chunk("[}},{\"a\":1}}]");
    assert_eq!(objects, vec!["{\"a\":1}".to_string()]);
    assert!(!decoder.has_partial());
    assert_eq!(decoder.process_chunk("{\"b\":2}"), vec!["{\"b\":2}".to_string()]);
}

#[test]
fn string_ending_with_an_escaped_backslash_keeps_the_object_open() {
    let mut decoder = JsonArrayStream::new();
    let objects = decoder.process_chunk("[{\"a\":\"\\\\\"},{\"b\":\"}\"}]");
    assert_eq!(objects, vec!["{\"a\":\"\\\\\"},{\"b\":\"}".to_string()]);
    assert!(decoder.has_partial());
}

#[test]
fn escaped_backslash_inside_a_string_is_harmless() {
    let objects = feed_whole("[{\"a\":\"C:\\\\dir\"},{\"b\":\"\\\\\\\"\"}]");
    assert_eq!(
        objects,
        vec!["{\"a\":\"C:\\\\dir\"}".to_string(), "{\"b\":\"\\\\\\\"\"}".to_string()]
    );
}

#[test]
fn quote_between_objects_enters_the_next_text() {
    let objects = feed_whole("[\"x\",{\"a\":1}]");
    assert_eq!(objects, vec!["\"\"{\"a\":1}".to_string()]);
}

#[test]
fn object_before_the_bracket_is_decoded_too() {
    let mut decoder = JsonArrayStream::new();
    assert_eq!(decoder.process_chunk("{\"a\":1}"), vec!["{\"a\":1}".to_string()]);
    assert_eq!(decoder.process_chunk("[{\"b\":[2]}]"), vec!["{\"b\":[2]}".to_string()]);
}

#[test]
fn two_decoders_do_not_share_state() {
    let mut first = JsonArrayStream::new();
    let mut second = JsonArrayStream::new();
    assert!(first.process_chunk("[{\"a\":").is_empty());
    assert_eq!(second.process_chunk("[{\"b\":2}"), vec!["{\"b\":2}".to_string()]);
    assert_eq!(first.process_chunk("1}"), vec!["{\"a\":1}".to_string()]);
}

/// The rules of the decoder written out as one `match`, to hold the decoder
/// against.
struct PlainScan {
    depth: usize,
    buffer: String,
    in_string: bool,
    escape_next: bool,
    started: bool,
}

impl PlainScan {
    fn feed(&mut self, chunk: &str) -> Vec<String> {
        let mut complete = Vec::new();
        for c in chunk.chars() {
            if !self.started && !self.in_string && self.depth == 0 && c.is_whitespace() {
                continue;
            }
            if !self.started && c == '[' {
                self.started = true;
                continue;
            }
            match c {
                '{' if !self.in_string => {
                    self.depth += 1;
                    self.buffer.push(c);
                }
                '}' if !self.in_string => {
                    if self.depth == 0 {
                        continue;
                    }
                    self.depth -= 1;
                    self.buffer.push(c);
                    if self.depth == 0 {
                        complete.push(self.buffer.clone());
                        self.buffer.clear();
                    }
                }
                '"' if !self.escape_next => {
                    self.in_string = !self.in_string;
                    self.buffer.push(c);
                }
                '\\' if self.in_string => {
                    self.escape_next = true;
                    self.buffer.push(c);
                }
                _ => {
                    if self.escape_next {
                        self.escape_next = false;
                    }
                    if self.depth > 0 {
                        self.buffer.push(c);
                    }
                }
            }
        }
        complete
    }
}

#[test]
fn decoder_follows_the_rules_on_arbitrary_text() {
    let alphabet: Vec<char> = "{}{}\"\"\\\\[], :a1 \n\u{e9}\u{3000}".chars().collect();
    let mut seed: u64 = 0x2545f4914f6cdd1d;
    for round in 0..4000 {
        let mut plain = PlainScan {
            depth: 0,
            buffer: String::new(),
            in_string: false,
            escape_next: false,
            started: false,
        };
        let mut decoder = JsonArrayStream::new();
        let chunks = 1 + round % 4;
        for _ in 0..chunks {
            let mut chunk = String::new();
            let len = (seed >> 59) as usize;
            for _ in 0..len {
                seed = seed.wrapping_mul(6364136223846793005).wrapping_add(1442695040888963407);
                chunk.push(alphabet[(seed >> 33) as usize % alphabet.len()]);
            }
            seed = seed.wrapping_mul(6364136223846793005).wrapping_add(1442695040888963407);
            assert_eq!(decoder.process_chunk(&chunk), plain.feed(&chunk), "chunk {:?}", chunk);
            assert_eq!(decoder.has_partial(), !plain.buffer.is_empty());
        }
    }
}
