use utils::seq::{Sequence, Sequences};

#[test]
fn test_get_tokens_on_duplicate_string() {
    let string: String = String::from("actact");
    let expected: Vec<&str> = vec!["a", "ac", "act", "acta", "actac", "actact", "c", "ct", "t"];
    let result: Vec<String> = Sequences::from(string).get_tokens();
    assert_eq!(result, expected);
}

#[test]
fn test_get_tokens_on_empty_string() {
    let string: String = String::from("");
    let expected: Vec<&str> = vec![];
    let result: Vec<String> = Sequences::from(string).get_tokens();
    assert_eq!(result, expected);
}

#[test]
fn test_get_tokens_on_multiple_repeating_substrings() {
    let string: String = String::from("actgggact");
    let expected: Vec<&str> = vec![
        "a",
        "ac",
        "act",
        "actg",
        "actgg",
        "actggg",
        "actggga",
        "actgggac",
        "actgggact",
        "c",
        "ct",
        "g",
        "gg",
        "ggg",
        "t",
    ];
    let result: Vec<String> = Sequences::from(string).get_tokens();
    assert_eq!(result, expected);
}

#[test]
fn test_get_tokens_on_repeating_character() {
    let string = String::from("gggg");
    let expected: Vec<&str> = vec!["g", "gg", "ggg", "gggg"];
    let result: Vec<String> = Sequences::from(string).get_tokens();
    assert_eq!(result, expected);
}

#[test]
fn test_get_tokens_on_no_repeating_characters() {
    let string: String = String::from("abcdefg");
    let expected: Vec<&str> = vec![
        "a", "ab", "abc", "abcd", "abcde", "abcdef", "abcdefg", "b", "c", "d", "e", "f", "g",
    ];
    let result: Vec<String> = Sequences::from(string).get_tokens();
    assert_eq!(result, expected);
}

#[test]
fn test_find_on_multiple_occurrences() {
    let string: String = String::from("actact");
    let expected: Vec<Sequence> = vec![Sequence::new(0, 3), Sequence::new(3, 6)];
    let mut result: Vec<Sequence> = Sequences::from(string).find("act");
    result.sort();
    assert_eq!(result, expected);
}

#[test]
fn test_find_on_no_matching_occurrences() {
    let string: String = String::from("actact");
    let expected: Vec<Sequence> = Vec::new();
    let result: Vec<Sequence> = Sequences::from(string).find("tt");
    assert_eq!(result, expected);
}

fn sorted(mut v: Vec<Sequence>) -> Vec<Sequence> {
    v.sort();
    v
}

#[test]
fn single_character_gives_one_token() {
    let index = Sequences::from(String::from("x"));
    assert_eq!(index.get_tokens(), vec!["x"]);
    assert_eq!(index.find("x"), vec![Sequence::new(0, 1)]);
}

#[test]
fn repeated_character_recorded_at_every_offset() {
    let index = Sequences::from(String::from("gggg"));
    for k in 1..=4usize {
        let token = "g".repeat(k);
        let expected: Vec<Sequence> = (0..=4 - k).map(|a| Sequence::new(a, a + k)).collect();
        assert_eq!(sorted(index.find(&token)), expected);
    }
}

#[test]
fn intervals_spell_their_token() {
    for source in ["actgggact", "actact", "abcdefg", "gggg", "abab", "aabaab", "mississippi"] {
        let index = Sequences::from(String::from(source));
        for token in index.get_tokens() {
            let found = index.find(&token);
            assert!(!found.is_empty());
            for iv in found {
                assert!(iv.start() < iv.end());
                assert_eq!(&source[iv.start()..iv.end()], token);
            }
        }
    }
}

#[test]
fn tokens_strictly_ascending() {
    for source in ["actgggact", "mississippi", "banana", "zyxzyx"] {
        let tokens = Sequences::from(String::from(source)).get_tokens();
        for pair in tokens.windows(2) {
            assert!(pair[0] < pair[1]);
        }
    }
}

#[test]
fn characters_and_prefixes_are_tokens() {
    let source = "banana";
    let index = Sequences::from(String::from(source));
    for k in 0..source.len() {
        assert!(index.find(&source[k..k + 1]).contains(&Sequence::new(k, k + 1)));
    }
    for k in 1..=source.len() {
        assert!(index.find(&source[0..k]).contains(&Sequence::new(0, k)));
    }
}

#[test]
fn find_of_absent_token_is_empty() {
    let index = Sequences::from(String::from("actgggact"));
    let tokens = index.get_tokens();
    for probe in ["tt", "gact", "x", "", "actgggactx"] {
        assert!(!tokens.iter().any(|t| t == probe));
        assert!(index.find(probe).is_empty());
    }
}

#[test]
fn later_repeat_recorded_where_it_ends() {
    let index = Sequences::from(String::from("xactact"));
    assert_eq!(sorted(index.find("act")), vec![Sequence::new(4, 7)]);
    assert_eq!(sorted(index.find("ct")), vec![Sequence::new(5, 7)]);
}

#[test]
fn neighbouring_repeat_records_overlap() {
    let index = Sequences::from(String::from("aab"));
    assert_eq!(index.get_tokens(), vec!["a", "aa", "aab", "b"]);
    assert_eq!(sorted(index.find("a")), vec![Sequence::new(0, 1), Sequence::new(1, 2)]);
}

#[test]
fn new_index_is_empty() {
    let index = Sequences::new();
    assert!(index.get_tokens().is_empty());
    assert!(index.find("a").is_empty());
    assert_eq!(index.render(), "\n");
}

#[test]
fn render_lists_tokens_and_intervals() {
    let index = Sequences::from(String::from("ab"));
    assert_eq!(
        index.render(),
        "sequence: a:\n\tstart: 0, end: 1\nsequence: ab:\n\tstart: 0, end: 2\nsequence: b:\n\tstart: 1, end: 2\n\n"
    );
}

#[test]
fn interval_to_json() {
    assert_eq!(Sequence::new(3, 12).to_json(), "{\"start\":3,\"end\":12}");
    assert_eq!(Sequence::new(0, 0).to_json(), "{\"start\":0,\"end\":0}");
}
