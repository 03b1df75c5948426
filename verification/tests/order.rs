use cbp::order::{le_chars, sort_strings, sort_unique};

fn strings(items: &[&str]) -> Vec<String> {
    items.iter().map(|s| s.to_string()).collect()
}

fn chars(s: &str) -> Vec<char> {
    s.chars().collect()
}

const WORDS: [&str; 12] =
    ["zlib", "bzip2", "", "a", "ab", "B", "a", "zlib", "é", "z", "lib/z", "lib"];

#[test]
fn order_is_that_of_std() {
    for a in WORDS {
        for b in WORDS {
            assert_eq!(le_chars(&chars(a), &chars(b)), a <= b, "{:?} and {:?}", a, b);
        }
    }
}

#[test]
fn sort_is_that_of_std() {
    let mut expected = strings(&WORDS);
    expected.sort();
    assert_eq!(sort_strings(&strings(&WORDS)), expected);
    assert!(sort_strings(&Vec::new()).is_empty());
}

#[test]
fn sort_unique_is_sort_and_dedup() {
    let mut expected = strings(&WORDS);
    expected.sort();
    expected.dedup();
    assert_eq!(sort_unique(&strings(&WORDS)), expected);
    assert_eq!(sort_unique(&strings(&["b", "a", "b", "a"])), strings(&["a", "b"]));
}
