use heineos::cstring::{abs, isspace, strcasecmp, strchr, strcmp, strdup, strlen, strncasecmp, strncmp, strncpy, strrchr, strstr, toupper};
use heineos::libc::{atoi, copy_len, fflush, fix_lump_name, is_read_mode, realloc_copy_size, seek_mode_from_origin, AllocationTable};
use heineos::tarfs::SeekMode;

fn c(s: &str) -> Vec<i8> {
    let mut v: Vec<i8> = s.bytes().map(|b| b as i8).collect();
    v.push(0);
    v
}

#[test]
fn compare_strings() {
    assert_eq!(strcmp(&c("abc"), &c("abc")), 0);
    assert_eq!(strcmp(&c("abc"), &c("abd")), -1);
    assert_eq!(strcmp(&c("abd"), &c("abc")), 1);
    assert_eq!(strcmp(&c("ab"), &c("abc")), -1);
    assert_eq!(strcmp(&c(""), &c("")), 0);
    assert_eq!(strncmp(&c("abcx"), &c("abcy"), 3), 0);
    assert_eq!(strncmp(&c("abcx"), &c("abcy"), 4), -1);
    assert_eq!(strncmp(&c("a"), &c("b"), 0), 0);
    assert_eq!(strcasecmp(&c("DooM"), &c("doom")), 0);
    assert_eq!(strcasecmp(&c("a"), &c("B")), -1);
    assert_eq!(strncasecmp(&c("STCFN033"), &c("stcfn034"), 7), 0);
    assert_eq!(strncasecmp(&c("STCFN033"), &c("stcfn034"), 8), -1);
}

#[test]
fn character_classes() {
    assert_eq!(toupper('a' as i32), 'A' as i32);
    assert_eq!(toupper('z' as i32), 'Z' as i32);
    assert_eq!(toupper('1' as i32), '1' as i32);
    assert_eq!(toupper('A' as i32), 'A' as i32);
    assert_eq!(isspace(' ' as i32), 1);
    assert_eq!(isspace('\n' as i32), 1);
    assert_eq!(isspace('x' as i32), 0);
    assert_eq!(abs(-5), 5);
    assert_eq!(abs(7), 7);
}

#[test]
fn search_strings() {
    let s = c("hello world");
    assert_eq!(strlen(&s), 11);
    assert_eq!(strchr(&s, 'o' as i32), Some(4));
    assert_eq!(strrchr(&s, 'o' as i32), Some(7));
    assert_eq!(strchr(&s, 'z' as i32), None);
    assert_eq!(strchr(&s, 0), Some(11));
    let mut hay = c("hello world");
    hay.extend_from_slice(&[0, 0, 0, 0, 0]);
    assert_eq!(strstr(&hay, &c("world")), Some(6));
    assert_eq!(strstr(&hay, &c("worlds")), None);
    assert_eq!(strstr(&hay, &c("")), Some(0));
}

#[test]
fn copy_strings() {
    let mut dest = vec![9i8; 8];
    strncpy(&mut dest, &c("abc"), 6);
    assert_eq!(dest, vec![97, 98, 99, 0, 0, 0, 9, 9]);
    let mut dest = vec![9i8; 4];
    strncpy(&mut dest, &c("abcdef"), 3);
    assert_eq!(dest, vec![97, 98, 99, 9]);
    assert_eq!(strdup(&c("hi")), c("hi"));
}

#[test]
fn stdio_decisions() {
    assert_eq!(fflush(0), 0);
    assert_eq!(fflush(1), 0);
    assert_eq!(fflush(5), -1);
    assert_eq!(seek_mode_from_origin(0), Some(SeekMode::Start));
    assert_eq!(seek_mode_from_origin(2), Some(SeekMode::End));
    assert_eq!(seek_mode_from_origin(3), None);
    assert!(is_read_mode("r"));
    assert!(is_read_mode("rb"));
    assert!(!is_read_mode("w"));
    assert_eq!(fix_lump_name(b"STCFN33".to_vec()), b"STCFN033".to_vec());
    assert_eq!(fix_lump_name(b"WIA00101".to_vec()), b"WIA0000101".to_vec());
    assert_eq!(fix_lump_name(b"TITLEPIC".to_vec()), b"TITLEPIC".to_vec());
    assert_eq!(copy_len(8, 20), 7);
    assert_eq!(copy_len(8, 3), 3);
    assert_eq!(realloc_copy_size(10, 4), 4);
    assert_eq!(realloc_copy_size(4, 10), 4);
}

#[test]
fn allocation_table() {
    let mut t = AllocationTable::new();
    t.record(0x1000, 64);
    t.record(0x2000, 8);
    assert_eq!(t.size_of(0x1000), Some(64));
    assert_eq!(t.release(0x1000), Some(64));
    assert_eq!(t.release(0x1000), None);
    assert_eq!(t.size_of(0x2000), Some(8));
}

#[test]
fn atoi_parses_leading_integer() {
    assert_eq!(atoi("42"), 42);
    assert_eq!(atoi("   -42abc"), -42);
    assert_eq!(atoi("\t\n+17 apples"), 17);
    assert_eq!(atoi("\u{a0}\u{3000}7"), 7);
    assert_eq!(atoi("007"), 7);
}

#[test]
fn atoi_limits() {
    assert_eq!(atoi("2147483647"), 2147483647);
    assert_eq!(atoi("-2147483648"), -2147483648);
    assert_eq!(atoi("2147483648"), 0);
    assert_eq!(atoi("-2147483649"), 0);
    assert_eq!(atoi("99999999999999999999"), 0);
}

#[test]
fn atoi_rejects_malformed_numbers() {
    assert_eq!(atoi(""), 0);
    assert_eq!(atoi("abc"), 0);
    assert_eq!(atoi("+"), 0);
    assert_eq!(atoi("-"), 0);
    assert_eq!(atoi("1-2"), 0);
    assert_eq!(atoi("--5"), 0);
    assert_eq!(atoi("x12"), 0);
}
