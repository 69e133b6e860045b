use cfl::estimate_tokens;

#[test]
fn token_estimate_of_a_call() {
    let s = "fn main() { println!(\"Hello\"); }";
    assert_eq!(estimate_tokens(s), 4);
    assert_eq!(estimate_tokens(s), estimate_tokens(s));
}

#[test]
fn token_estimate_edges() {
    assert_eq!(estimate_tokens(""), 0);
    assert_eq!(estimate_tokens("   \n\t"), 0);
    assert_eq!(estimate_tokens("word"), 1);
    assert_eq!(estimate_tokens("a+b-c*d/e=f<g>h&i|j!k@l#m$n%o^p"), 16);
    assert_eq!(estimate_tokens("snake_case.name:x;y,z?w"), 7);
    assert_eq!(estimate_tokens("(a)[b]{c}"), 3);
}

#[test]
fn token_estimate_splits_on_unicode_whitespace() {
    assert_eq!(estimate_tokens("a\u{3000}b\u{2003}c\u{85}d\u{a0}e"), 5);
    assert_eq!(estimate_tokens("héllo wörld"), 2);
    assert_eq!(estimate_tokens("a\u{200b}b"), 1);
}
