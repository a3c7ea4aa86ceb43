use mt940::sanitizers::{
    sanitize, strip_excess_tag86_lines, strip_stuff_between_messages, to_swift_charset,
};

#[test]
fn to_swift_charset_sanitize_sentence() {
    let input = "hällö waß íst lös";
    let result = to_swift_charset(input);
    let expected = "hallo wass ist los";
    assert_eq!(result, expected);
}

#[test]
fn to_swift_charset_special_char_conversions() {
    let cases = [
        ("ä", "a"),
        ("ö", "o"),
        ("ú", "u"),
        ("é", "e"),
        ("å", "a"),
        ("á", "a"),
        ("ß", "ss"),
        ("ó", "o"),
        ("í", "i"),
        ("ë", "e"),
        ("=", "."),
        ("!", "."),
    ];
    for (input, expected) in cases {
        assert_eq!(to_swift_charset(input), expected);
    }
}

#[test]
fn to_swift_charset_keeps_swift_text() {
    let input = ":20:ABC/12-3?(x).,'+{} \r\n:86:more\r\n";
    assert_eq!(to_swift_charset(input), input);
}

#[test]
fn strip_stuff_between_messages_success() {
    let input = "\
        :86:asdasdads\r\n\
        ------\r\n\
        :20:vvvvv\r\n\
        :86:hello\r\n\
        multi line string\r\n\
        here is ok\r\n\
        :64:end of message\r\n\
        stuff between messages\r\n\
        should be removed\r\n\
        :20:aaaaa\r\n\
        :64:some more\r\n\
        ö»»«»«äää\r\n\
        :20:lolab\r\n\
        :86:zzzz\r\n\
        :64:asda\r\n\
        --\r\n\
    ";
    let expected = "\
                    :86:asdasdads\r\n\
                    :20:vvvvv\r\n\
                    :86:hello\r\n\
                    multi line string\r\n\
                    here is ok\r\n\
                    :64:end of message\r\n\
                    :20:aaaaa\r\n\
                    :64:some more\r\n\
                    :20:lolab\r\n\
                    :86:zzzz\r\n\
                    :64:asda\r\n\
                    ";
    let result = strip_stuff_between_messages(input);
    assert_eq!(result, expected);
}

/// Last lines in the file will be stripped if last tag is not tag 86.
/// Tag 86 is a multiline tag and can validly be placed at the end of a message.
#[test]
fn strip_stuff_between_messages_last_is_86() {
    let input = "\
        :20:vvvvv\r\n\
        :86:hello\r\n\
        multi line string\r\n\
        here is ok\r\n\
        --\r\n\
    ";
    let expected = "\
                    :20:vvvvv\r\n\
                    :86:hello\r\n\
                    multi line string\r\n\
                    here is ok\r\n\
                    --\r\n\
                    ";
    let result = strip_stuff_between_messages(input);
    assert_eq!(result, expected);
}

#[test]
fn strip_stuff_between_messages_without_tags() {
    assert_eq!(strip_stuff_between_messages("first\nsecond\nthird"), "first\r\n");
    assert_eq!(strip_stuff_between_messages(""), "");
}

#[test]
fn excess_tag86_are_stripped() {
    let input = "\
        :20:vvvvv\r\n\
        :86:hello\r\n\
        multi line string\r\n\
        here is ok even with date that looks like a tag 20:10:43\r\n\
        but not when\r\n\
        it is way too many\r\n\
        lines\r\n\
        in fact i shouldnt be here\r\n\
        and i shouldnt either\r\n\
        :62F:C123EUR321,98\r\n\
        :20:vvvvv\r\n\
        :86:hello\r\n\
        multi line string\r\n\
        but not many lines\r\n\
        :62F:C123EUR321,98\r\n\
        :20:vvvvv\r\n\
        :86:hi there\r\n\
        a very multi lined string\r\n\
        here is ok even with date that looks like a tag 20:86:43\r\n\
        but not when\r\n\
        it is way too many\r\n\
        lines\r\n\
        in fact i shouldnt be here\r\n\
        and i shouldnt either\r\n\
        and i certainly aint supposed to be here as well\r\n\
        :62F:C321EUR123,98\r\n\
    ";
    let expected = "\
        :20:vvvvv\r\n\
        :86:hello\r\n\
        multi line string\r\n\
        here is ok even with date that looks like a tag 20:10:43\r\n\
        but not when\r\n\
        it is way too many\r\n\
        lines\r\n\
        :62F:C123EUR321,98\r\n\
        :20:vvvvv\r\n\
        :86:hello\r\n\
        multi line string\r\n\
        but not many lines\r\n\
        :62F:C123EUR321,98\r\n\
        :20:vvvvv\r\n\
        :86:hi there\r\n\
        a very multi lined string\r\n\
        here is ok even with date that looks like a tag 20:86:43\r\n\
        but not when\r\n\
        it is way too many\r\n\
        lines\r\n\
        :62F:C321EUR123,98\r\n\
    ";
    let result = strip_excess_tag86_lines(input);
    assert_eq!(result, expected);
}

#[test]
fn sanitize_twice_changes_nothing_more() {
    let input = "junk in front\n:20:rëf\n:86:a\nb\nc\nd\ne\nf\ng\n-----\n:20:x!\n:62F:C1\ntrailing\n";
    let once = sanitize(input);
    assert_eq!(
        once,
        ":20:ref\r\n:86:a\r\n:20:x.\r\n:62F:C1\r\n"
    );
    assert_eq!(sanitize(&once), once);
}

#[test]
fn sanitize_keeps_clean_statement() {
    let input = "\
        :20:3996-11-11111111\n\
        :25:DABADKKK/111111-11111111\n\
        :28C:00001/001\n\
        :60F:C090924EUR54484,04\n\
        :61:0909250925DR583,92NMSC1110030403010139//1234\n\
        :86:11100304030101391234\n\
        Beneficiary name\n\
        :62F:C090930EUR53126,94\n\
        :86:closing words\n\
        more words\n";
    let expected = input.replace('\n', "\r\n");
    assert_eq!(sanitize(input), expected);
}

#[test]
fn empty_transliteration_removes_character() {
    for code in (0x300u32..0x370).chain(0x2000..0x2070).chain(0xfe00..0xfe10) {
        if let Some(c) = char::from_u32(code) {
            if deunicode::deunicode_char(c) == Some("") {
                let s = format!("a{}b", c);
                assert_eq!(to_swift_charset(&s), "ab");
            }
        }
    }
}
