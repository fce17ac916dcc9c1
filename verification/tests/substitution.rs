use easy_alias::subst::{expand, SubstitutionError, SubstitutionMap};
use easy_alias::text::{chars_of, string_of};

fn subs(raw: &str) -> SubstitutionMap {
    SubstitutionMap::parse(raw).expect("substitutions with a key in every field")
}

#[test]
fn chars_of_gives_each_character() {
    assert_eq!(chars_of("a☃b"), vec!['a', '☃', 'b']);
    assert_eq!(chars_of(""), Vec::<char>::new());
}

#[test]
fn string_of_copies_the_range() {
    let chars = vec!['h', 'e', 'l', 'l', 'o'];
    assert_eq!(string_of(&chars, 1, 4), "ell");
    assert_eq!(string_of(&chars, 0, 5), "hello");
    assert_eq!(string_of(&chars, 2, 2), "");
}

#[test]
fn escaped_comma_stays_in_the_value() {
    let map = subs("a=1\\,2,b=hello");
    assert_eq!(map.get('a'), Some("1,2"));
    assert_eq!(map.get('b'), Some("hello"));
    assert_eq!(map.get('c'), None);
}

#[test]
fn key_is_first_character_and_value_starts_at_the_third() {
    let map = subs("abc,x=1,y,z=");
    assert_eq!(map.get('a'), Some("c"));
    assert_eq!(map.get('x'), Some("1"));
    assert_eq!(map.get('y'), Some(""));
    assert_eq!(map.get('z'), Some(""));
    assert_eq!(map.get('b'), None);
}

#[test]
fn first_field_of_a_key_counts() {
    let map = subs("a=1,a=2");
    assert_eq!(map.get('a'), Some("1"));
}

#[test]
fn backslash_without_comma_is_kept() {
    let map = subs("a=x\\y,b=\\\\,c");
    assert_eq!(map.get('a'), Some("x\\y"));
    assert_eq!(map.get('b'), Some("\\,c"));
}

#[test]
fn escaped_comma_can_be_the_key() {
    let map = subs("\\,=v");
    assert_eq!(map.get(','), Some("v"));
}

#[test]
fn empty_field_is_refused() {
    assert!(SubstitutionMap::parse("").is_none());
    assert!(SubstitutionMap::parse("a=1,").is_none());
    assert!(SubstitutionMap::parse(",a=1").is_none());
    assert!(SubstitutionMap::parse("a=1,,b=2").is_none());
    assert!(SubstitutionMap::parse("a").is_some());
}

#[test]
fn template_with_marker_needs_substitutions() {
    assert_eq!(
        expand("run **x", None),
        Err(SubstitutionError::UnresolvedPlaceholder("run **x".to_string()))
    );
    assert_eq!(expand("run", None), Ok("run".to_string()));
}

#[test]
fn lone_stars_need_no_substitutions() {
    assert_eq!(expand("ls *.rs * x", None), Ok("ls *.rs * x".to_string()));
    assert_eq!(
        expand("ends in **", None),
        Err(SubstitutionError::UnresolvedPlaceholder("ends in **".to_string()))
    );
    assert_eq!(expand("", None), Ok(String::new()));
}

#[test]
fn placeholders_give_way_to_their_values() {
    let map = subs("n=world,g=hello");
    assert_eq!(expand("echo **g **n", Some(&map)), Ok("echo hello world".to_string()));
    assert_eq!(expand("**n**n", Some(&map)), Ok("worldworld".to_string()));
}

#[test]
fn placeholder_without_value_stays() {
    let map = subs("n=world");
    assert_eq!(expand("echo **n **m", Some(&map)), Ok("echo world **m".to_string()));
    assert_eq!(expand("echo **", Some(&map)), Ok("echo **".to_string()));
}

#[test]
fn values_are_not_expanded_again() {
    let map = subs("a=**b,b=X");
    assert_eq!(expand("**a", Some(&map)), Ok("**b".to_string()));
}

#[test]
fn leftmost_placeholder_is_taken_first() {
    let map = subs("a=1");
    assert_eq!(expand("***a", Some(&map)), Ok("*1".to_string()));
    let stars = subs("*=S,a=1");
    assert_eq!(expand("***a", Some(&stars)), Ok("Sa".to_string()));
}

#[test]
fn no_placeholder_of_a_given_key_is_left() {
    let map = subs("a=one,b=two,c=");
    let out = expand("x **a y **b**c z **a*", Some(&map)).unwrap();
    assert_eq!(out, "x one y two z one*");
    for key in ["**a", "**b", "**c"] {
        assert!(!out.contains(key));
    }
}

#[test]
fn value_with_stars_can_leave_a_placeholder() {
    let map = subs("a=**a");
    assert_eq!(expand("**a", Some(&map)), Ok("**a".to_string()));
    let plain = subs("a=a1");
    assert_eq!(expand("****a", Some(&plain)), Ok("**a1".to_string()));
}

#[test]
fn unicode_keys_and_values() {
    let map = subs("é=ü☃");
    assert_eq!(expand("say **é!", Some(&map)), Ok("say ü☃!".to_string()));
}
