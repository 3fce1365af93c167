use chim_compiler::stdlib::conv::{
    base64_decode_to_bytes, base64_encode, base64_encode_bytes, binary_to_int, bool_to_int,
    bool_to_string, char_to_int, char_to_string, chars_to_string, hex_to_int, html_escape,
    html_unescape, htonl, htonll, htons, int_to_base, int_to_binary, int_to_bool, int_to_char,
    int_to_hex, int_to_octal, int_to_string, json_escape, json_unescape, ntohl, ntohll, ntohs,
    octal_to_int, parse_in_base, parse_int_opt, string_to_bool, string_to_chars, string_to_int,
    uuid_parse,
};
use chim_compiler::stdlib::math::{
    abs, clamp, divisors, factorial, fibonacci, gcd, is_even, is_odd, is_prime, lcm, max, min, sign,
};

#[test]
fn math_basics() {
    assert_eq!(abs(-5), 5);
    assert_eq!(abs(7), 7);
    assert_eq!(min(3, -2), -2);
    assert_eq!(max(3, -2), 3);
    assert_eq!(clamp(15, 0, 10), 10);
    assert_eq!(clamp(-1, 0, 10), 0);
    assert_eq!(clamp(4, 0, 10), 4);
    assert_eq!(sign(-9), -1);
    assert_eq!(sign(0), 0);
    assert_eq!(sign(12), 1);
}

#[test]
fn gcd_and_lcm() {
    assert_eq!(gcd(12, 18), 6);
    assert_eq!(gcd(-12, 18), 6);
    assert_eq!(gcd(0, 7), 7);
    assert_eq!(gcd(0, 0), 0);
    assert_eq!(lcm(4, 6), 12);
    assert_eq!(lcm(0, 6), 0);
    assert_eq!(lcm(-4, 6), -12);
}

#[test]
fn parity() {
    assert!(is_even(4));
    assert!(!is_even(-3));
    assert!(is_odd(-3));
    assert!(!is_odd(0));
}

#[test]
fn factorial_and_fibonacci() {
    assert_eq!(factorial(0), 1);
    assert_eq!(factorial(5), 120);
    assert_eq!(factorial(20), 2432902008176640000);
    assert_eq!(factorial(-3), 0);
    assert_eq!(fibonacci(0), 0);
    assert_eq!(fibonacci(1), 1);
    assert_eq!(fibonacci(10), 55);
    assert_eq!(fibonacci(90), 2880067194370816120);
    assert_eq!(fibonacci(-4), 0);
}

#[test]
fn primes() {
    let primes: Vec<i64> = (-5..40).filter(|&n| is_prime(n)).collect();
    assert_eq!(primes, vec![2, 3, 5, 7, 11, 13, 17, 19, 23, 29, 31, 37]);
    assert!(is_prime(7919));
    assert!(!is_prime(7917));
}

#[test]
fn int_and_bool_texts() {
    assert_eq!(int_to_string(-42), "-42");
    assert_eq!(int_to_string(i64::MIN), "-9223372036854775808");
    assert!(int_to_bool(-1));
    assert!(!int_to_bool(0));
    assert_eq!(bool_to_string(true), "true");
    assert_eq!(bool_to_int(false), 0);
    assert!(string_to_bool("TRUE"));
    assert!(string_to_bool("Yes"));
    assert!(string_to_bool("1"));
    assert!(!string_to_bool("on"));
}

#[test]
fn parsing_integers() {
    assert_eq!(string_to_int("123"), 123);
    assert_eq!(string_to_int("-17"), -17);
    assert_eq!(string_to_int("+8"), 8);
    assert_eq!(string_to_int("12a"), 0);
    assert_eq!(string_to_int(""), 0);
    assert_eq!(string_to_int("-"), 0);
    assert_eq!(string_to_int("9223372036854775807"), i64::MAX);
    assert_eq!(string_to_int("-9223372036854775808"), i64::MIN);
    assert_eq!(string_to_int("9223372036854775808"), 0);
    assert_eq!(hex_to_int("ff"), 255);
    assert_eq!(hex_to_int("FF"), 255);
    assert_eq!(octal_to_int("17"), 15);
    assert_eq!(binary_to_int("1011"), 11);
    assert_eq!(binary_to_int("102"), 0);
    assert_eq!(parse_in_base("z", 16), 0);
    assert_eq!(parse_int_opt("-10", 16), Some(-16));
    assert_eq!(parse_int_opt("x", 10), None);
}

#[test]
fn radix_texts() {
    assert_eq!(int_to_hex(255), "ff");
    assert_eq!(int_to_hex(-255), "-ff");
    assert_eq!(int_to_octal(8), "10");
    assert_eq!(int_to_binary(5), "101");
    assert_eq!(int_to_binary(0), "0");
    assert_eq!(int_to_base(i64::MIN, 16), "-8000000000000000");
    assert_eq!(hex_to_int(&int_to_hex(123456789)), 123456789);
}

#[test]
fn characters() {
    assert_eq!(char_to_int("A"), 65);
    assert_eq!(char_to_int(""), 0);
    assert_eq!(char_to_int("é"), 233);
    assert_eq!(int_to_char(97), "a");
    assert_eq!(int_to_char(0xD800), "");
    assert_eq!(int_to_char(-1), "");
    assert_eq!(char_to_string("xy"), "xy");
    assert_eq!(string_to_chars("héj"), vec!["h".to_string(), "é".to_string(), "j".to_string()]);
    let parts = vec!["ab".to_string(), "".to_string(), "c".to_string()];
    assert_eq!(chars_to_string(&parts), "abc");
}

#[test]
fn byte_order() {
    assert_eq!(htons(0x1234), 0x3412);
    assert_eq!(ntohs(htons(0x1234)), 0x1234);
    assert_eq!(htonl(0x12345678), 0x78563412);
    assert_eq!(ntohl(htonl(0x0a0b0c0d)), 0x0a0b0c0d);
    assert_eq!(htonll(0x0102030405060708), 0x0807060504030201);
    assert_eq!(ntohll(htonll(-2)), -2);
}

#[test]
fn base64() {
    assert_eq!(base64_encode("Man"), "TWFu");
    assert_eq!(base64_encode("Ma"), "TWE=");
    assert_eq!(base64_encode("M"), "TQ==");
    assert_eq!(base64_encode(""), "");
    assert_eq!(base64_encode_bytes(&[0xff, 0x00, 0x10]), "/wAQ");
    assert_eq!(base64_decode_to_bytes("TWFu"), b"Man".to_vec());
    assert_eq!(base64_decode_to_bytes("TQ=="), b"M".to_vec());
    let data: Vec<u8> = (0..=255).collect();
    assert_eq!(base64_decode_to_bytes(&base64_encode_bytes(&data)), data);
}

#[test]
fn escaping() {
    assert_eq!(html_escape("<a href=\"x\">&'"), "&lt;a href=&quot;x&quot;&gt;&amp;&#39;");
    assert_eq!(html_unescape("&lt;b&gt; &amp;amp; &#39;"), "<b> &amp; '");
    assert_eq!(json_escape("a\"b\\c\nd\te\r"), "a\\\"b\\\\c\\nd\\te\\r");
    assert_eq!(json_unescape("a\\\"b\\\\c\\nd"), "a\"b\\c\nd");
    assert_eq!(json_unescape("\\\\n"), "\\n");
}

#[test]
fn uuids() {
    assert!(uuid_parse("123e4567-e89b-12d3-a456-426614174000"));
    assert!(!uuid_parse("123e4567e89b12d3a456426614174000"));
    assert!(!uuid_parse("123e4567-e89b-12d3-a456-42661417400"));
}

#[test]
fn divisors_in_increasing_order() {
    assert_eq!(divisors(12), vec![1, 2, 3, 4, 6, 12]);
    assert_eq!(divisors(49), vec![1, 7, 49]);
    assert_eq!(divisors(1), vec![1]);
    assert_eq!(divisors(13), vec![1, 13]);
    assert_eq!(divisors(0), Vec::<i64>::new());
    assert_eq!(divisors(-6), Vec::<i64>::new());
}

#[test]
fn gcd_divides_both() {
    for a in [-36i64, -7, 0, 1, 12, 18, 97, 1000] {
        for b in [-24i64, 0, 5, 18, 35, 1000] {
            if a != 0 || b != 0 {
                let g = gcd(a, b);
                assert!(g > 0);
                assert_eq!(a % g, 0);
                assert_eq!(b % g, 0);
            }
        }
    }
}
