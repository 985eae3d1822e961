use overrider::args::parse_arg_pairs;
use overrider::args::parse_flag_args;
use overrider::args::parse_no_args;
use overrider::args::parse_priority_args;
use overrider::names::dec_chars;
use overrider::names::dec_chars_u64;
use overrider::names::flagentry_chars;
use overrider::names::flagext_chars;
use overrider::names::sig_chars;
use overrider::keys::ItemKey;
use overrider::text::chars_of;
use overrider::text::check_ident;
use overrider::text::parse_u32_chars;
use overrider::text::split_chars;
use overrider::text::trim_chars;
use overrider::OverrideError;

fn cv(s: &str) -> Vec<char> {
    s.chars().collect()
}

fn string_of(v: &[char]) -> String {
    v.iter().collect()
}

#[test]
fn chars_of_round_trip() {
    assert_eq!(chars_of("func_foo"), cv("func_foo"));
    assert_eq!(chars_of(""), cv(""));
}

#[test]
fn trim_removes_spaces_on_both_sides() {
    assert_eq!(trim_chars(&cv("  priority  ")), cv("priority"));
    assert_eq!(trim_chars(&cv("priority")), cv("priority"));
    assert_eq!(trim_chars(&cv("   ")), cv(""));
    assert_eq!(trim_chars(&cv("")), cv(""));
}

#[test]
fn split_keeps_empty_segments() {
    let segs = split_chars(&cv("a,b,,c"), ',');
    assert_eq!(segs.len(), 4);
    assert_eq!(segs[0], cv("a"));
    assert_eq!(segs[1], cv("b"));
    assert_eq!(segs[2], cv(""));
    assert_eq!(segs[3], cv("c"));
    let single = split_chars(&cv(""), ',');
    assert_eq!(single.len(), 1);
    assert_eq!(single[0], cv(""));
}

#[test]
fn parse_u32_reads_decimal() {
    assert_eq!(parse_u32_chars(&cv("0")), Some(0));
    assert_eq!(parse_u32_chars(&cv("007")), Some(7));
    assert_eq!(parse_u32_chars(&cv("4294967295")), Some(u32::MAX));
    assert_eq!(parse_u32_chars(&cv("4294967296")), None);
    assert_eq!(parse_u32_chars(&cv("")), None);
    assert_eq!(parse_u32_chars(&cv("12a")), None);
    assert_eq!(parse_u32_chars(&cv("-1")), None);
}

#[test]
fn ident_shape() {
    assert!(check_ident(&cv("a")));
    assert!(check_ident(&cv("_flag_9")));
    assert!(!check_ident(&cv("9flag")));
    assert!(!check_ident(&cv("")));
    assert!(!check_ident(&cv("a b")));
}

#[test]
fn arg_pairs_need_exactly_one_equals() {
    let pairs = parse_arg_pairs(&cv(" flag = a , priority = 2 ")).unwrap();
    assert_eq!(pairs.len(), 2);
    assert_eq!(pairs[0].key, cv("flag"));
    assert_eq!(pairs[0].value, cv("a"));
    assert_eq!(pairs[1].key, cv("priority"));
    assert_eq!(pairs[1].value, cv("2"));
    assert_eq!(
        parse_arg_pairs(&cv("flag a")).unwrap_err(),
        OverrideError::MalformedArguments
    );
    assert_eq!(
        parse_arg_pairs(&cv("flag = a = b")).unwrap_err(),
        OverrideError::MalformedArguments
    );
}

#[test]
fn no_args_means_no_args() {
    assert!(parse_no_args(&cv("")).is_ok());
    assert!(parse_no_args(&cv("   ")).is_ok());
    assert_eq!(
        parse_no_args(&cv("x")).unwrap_err(),
        OverrideError::MalformedArguments
    );
}

#[test]
fn override_default_priority_grammar() {
    assert_eq!(parse_priority_args(&cv("")), Ok(1));
    assert_eq!(parse_priority_args(&cv("priority = 2")), Ok(2));
    assert_eq!(parse_priority_args(&cv("priority=2")), Ok(2));
    assert_eq!(parse_priority_args(&cv(" priority = 007 ")), Ok(7));
    assert_eq!(
        parse_priority_args(&cv("priority = 2, priority = 3")),
        Err(OverrideError::MalformedArguments)
    );
    assert_eq!(
        parse_priority_args(&cv("level = 2")),
        Err(OverrideError::MalformedArguments)
    );
    assert_eq!(
        parse_priority_args(&cv("priority = abc")),
        Err(OverrideError::InvalidLiteral)
    );
    assert_eq!(
        parse_priority_args(&cv("priority = 99999999999")),
        Err(OverrideError::InvalidLiteral)
    );
}

#[test]
fn override_flag_schema() {
    let fa = parse_flag_args(&cv("flag = change")).unwrap();
    assert_eq!(fa.flag, cv("change"));
    assert_eq!(fa.priority, 1);
    assert!(!fa.invert);

    let fa = parse_flag_args(&cv("flag = disable, priority = 2, invert = true")).unwrap();
    assert_eq!(fa.flag, cv("disable"));
    assert_eq!(fa.priority, 2);
    assert!(fa.invert);

    assert_eq!(
        parse_flag_args(&cv("priority = 2")).unwrap_err(),
        OverrideError::MalformedArguments
    );
    assert_eq!(
        parse_flag_args(&cv("")).unwrap_err(),
        OverrideError::MalformedArguments
    );
    assert_eq!(
        parse_flag_args(&cv("flag = a, flag = b")).unwrap_err(),
        OverrideError::MalformedArguments
    );
    assert_eq!(
        parse_flag_args(&cv("flag = a, priority = x")).unwrap_err(),
        OverrideError::InvalidLiteral
    );
    assert_eq!(
        parse_flag_args(&cv("flag = a, invert = banana")).unwrap_err(),
        OverrideError::MalformedArguments
    );
    assert_eq!(
        parse_flag_args(&cv("flag = 9a")).unwrap_err(),
        OverrideError::MalformedArguments
    );
    assert_eq!(
        parse_flag_args(&cv("flag = a, color = red")).unwrap_err(),
        OverrideError::MalformedArguments
    );
}

#[test]
fn decimal_rendering() {
    assert_eq!(string_of(&dec_chars(0)), "0");
    assert_eq!(string_of(&dec_chars(7)), "7");
    assert_eq!(string_of(&dec_chars(10)), "10");
    assert_eq!(string_of(&dec_chars(1234567890)), "1234567890");
    assert_eq!(string_of(&dec_chars(u32::MAX)), "4294967295");
    assert_eq!(string_of(&dec_chars_u64(4294967296)), "4294967296");
}

#[test]
fn signature_encoding() {
    assert_eq!(
        string_of(&sig_chars(&ItemKey::Func { name: cv("foo") })),
        "func_foo"
    );
    assert_eq!(
        string_of(&sig_chars(&ItemKey::Method {
            owner: cv("Dummy"),
            name: cv("foo")
        })),
        "method_Dummy_foo"
    );
    assert_eq!(
        string_of(&sig_chars(&ItemKey::ImplConst {
            owner: cv("Dummy"),
            name: cv("MAX")
        })),
        "implconst_Dummy_MAX"
    );
}

#[test]
fn generated_rename_encoding() {
    assert_eq!(
        string_of(&flagext_chars(&cv("change"), &cv("foo"))),
        "__override_flagext_change_foo"
    );
    assert_eq!(
        string_of(&flagentry_chars(&cv("foo"))),
        "__override_flagentry_foo"
    );
}

#[test]
fn key_equality_is_structural() {
    let a = ItemKey::Func { name: cv("foo") };
    let b = ItemKey::Func { name: cv("foo") };
    let c = ItemKey::Func { name: cv("bar") };
    let d = ItemKey::Method { owner: cv("T"), name: cv("foo") };
    assert!(a.key_eq(&b));
    assert!(!a.key_eq(&c));
    assert!(!a.key_eq(&d));
    assert!(a.key_eq(&a.duplicate()));
}
