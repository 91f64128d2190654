use tptp::ascii::{is_alnum, is_digit, is_lower, is_printable, is_space, is_upper};
use tptp::lexical::{
    atomic_word, distinct_object, dollar_dollar_word, dollar_word, lower_word, number,
    scan_block, scan_digits, scan_exponent, scan_line, scan_word, single_quoted,
    skip_ignored, upper_word,
};
use tptp::outcome::{Expected, Outcome};
use tptp::syntax::{
    AtomicWord, DistinctObject, DollarDollarWord, DollarWord, Integer, LowerWord, Number,
    Rational, Real, SingleQuoted, UpperWord,
};

#[test]
fn byte_classes() {
    assert!(is_lower(b'a') && is_lower(b'z') && !is_lower(b'A') && !is_lower(b'{'));
    assert!(is_upper(b'A') && is_upper(b'Z') && !is_upper(b'a') && !is_upper(b'['));
    assert!(is_digit(b'0') && is_digit(b'9') && !is_digit(b'/') && !is_digit(b':'));
    assert!(is_alnum(b'_') && is_alnum(b'q') && is_alnum(b'7') && !is_alnum(b'-'));
    assert!(is_space(b' ') && is_space(b'\t') && is_space(b'\n') && is_space(b'\r'));
    assert!(!is_space(b'\0') && !is_space(0x0b));
    assert!(is_printable(b' ') && is_printable(b'~') && !is_printable(0x7f) && !is_printable(31));
}

#[test]
fn runs() {
    assert_eq!(scan_word(b"ab_1-c", 0), 4);
    assert_eq!(scan_word(b"ab", 0), 2);
    assert_eq!(scan_word(b"-ab", 0), 0);
    assert_eq!(scan_digits(b"a123b", 1), 4);
    assert_eq!(scan_line(b"abc\ndef", 0), 3);
    assert_eq!(scan_line(b"abc", 1), 3);
    assert_eq!(scan_block(b"a*b*/c", 0), 5);
    assert_eq!(scan_block(b"a*b*", 0), 4);
    assert_eq!(scan_exponent(b"e10,", 0), 3);
    assert_eq!(scan_exponent(b"E-1,", 0), 3);
    assert_eq!(scan_exponent(b"e,", 0), 0);
    assert_eq!(scan_exponent(b"e+,", 0), 0);
    assert_eq!(scan_exponent(b"e+", 0), 2);
    assert_eq!(scan_exponent(b"x", 0), 0);
    assert_eq!(scan_exponent(b"e1", 2), 2);
    assert_eq!(scan_word(b"ab", 7), 7);
}

#[test]
fn ignorable() {
    assert_eq!(skip_ignored(b"  \t\r\nx", 0), 5);
    assert_eq!(skip_ignored(b"x", 0), 0);
    assert_eq!(skip_ignored(b"% c\nx", 0), 4);
    assert_eq!(skip_ignored(b"/* c */x", 0), 7);
    assert_eq!(skip_ignored(b" /**/ % c\n /* * / */ x", 0), 21);
    assert_eq!(skip_ignored(b"/x", 0), 0);
    assert_eq!(skip_ignored(b"   ", 0), 3);
    assert_eq!(skip_ignored(b"% c", 0), 3);
    assert_eq!(skip_ignored(b"/* c", 0), 4);
    assert_eq!(skip_ignored(b"/", 0), 1);
    assert_eq!(skip_ignored(b"", 0), 0);
    assert_eq!(skip_ignored(b"ab", 5), 5);
}

#[test]
fn read_words() {
    assert_eq!(lower_word(b"abc def", 0), Outcome::Complete(LowerWord("abc"), 3));
    assert_eq!(lower_word(b"abc def ", 4), Outcome::Complete(LowerWord("def"), 7));
    assert_eq!(lower_word(b"aB_9(", 0), Outcome::Complete(LowerWord("aB_9"), 4));
    assert_eq!(lower_word(b"Abc ", 0), Outcome::Malformed(0, Expected::Lower));
    assert_eq!(lower_word(b"abc", 0), Outcome::Incomplete);
    assert_eq!(lower_word(b"abc", 3), Outcome::Incomplete);
    assert_eq!(upper_word(b"Xy,", 0), Outcome::Complete(UpperWord("Xy"), 2));
    assert_eq!(upper_word(b"xy,", 0), Outcome::Malformed(0, Expected::Upper));
    assert_eq!(dollar_word(b"$true ", 0), Outcome::Complete(DollarWord(LowerWord("true")), 5));
    assert_eq!(dollar_word(b"true ", 0), Outcome::Malformed(0, Expected::Dollar));
    assert_eq!(dollar_word(b"$True ", 0), Outcome::Malformed(1, Expected::Lower));
    assert_eq!(
        dollar_dollar_word(b"$$sys ", 0),
        Outcome::Complete(DollarDollarWord(LowerWord("sys")), 5)
    );
    assert_eq!(dollar_dollar_word(b"$sys ", 0), Outcome::Malformed(1, Expected::Dollar));
    assert_eq!(dollar_dollar_word(b"$", 0), Outcome::Incomplete);
    assert_eq!(atomic_word(b"abc ", 0), Outcome::Complete(AtomicWord::Lower(LowerWord("abc")), 3));
    assert_eq!(
        atomic_word(b"'a b' ", 0),
        Outcome::Complete(AtomicWord::SingleQuoted(SingleQuoted("a b")), 5)
    );
    assert_eq!(atomic_word(b"Abc ", 0), Outcome::Malformed(0, Expected::Lower));
}

#[test]
fn read_quoted() {
    assert_eq!(single_quoted(b"'a'", 0), Outcome::Complete(SingleQuoted("a"), 3));
    assert_eq!(
        single_quoted(b"'a\\'b\\\\c'x", 0),
        Outcome::Complete(SingleQuoted("a\\'b\\\\c"), 9)
    );
    assert_eq!(single_quoted(b"''", 0), Outcome::Malformed(1, Expected::QuotedChar));
    assert_eq!(single_quoted(b"'a\\n'", 0), Outcome::Malformed(3, Expected::Escape));
    assert_eq!(single_quoted(b"'a\nb'", 0), Outcome::Malformed(2, Expected::QuotedChar));
    assert_eq!(single_quoted(b"'a", 0), Outcome::Incomplete);
    assert_eq!(single_quoted(b"'a\\", 0), Outcome::Incomplete);
    assert_eq!(single_quoted(b"\"a\"", 0), Outcome::Malformed(0, Expected::Quote));
    assert_eq!(distinct_object(b"\"\"", 0), Outcome::Complete(DistinctObject(""), 2));
    assert_eq!(distinct_object(b"\"it's\"", 0), Outcome::Complete(DistinctObject("it's"), 6));
    assert_eq!(distinct_object(b"\"a\\\"b\"", 0), Outcome::Complete(DistinctObject("a\\\"b"), 6));
    assert_eq!(single_quoted(b"'a\x7fc'", 0), Outcome::Malformed(2, Expected::QuotedChar));
}

#[test]
fn read_numbers() {
    let integer = |text, end| Outcome::Complete(Number::Integer(Integer(text)), end);
    let rational = |text, end| Outcome::Complete(Number::Rational(Rational(text)), end);
    let real = |text, end| Outcome::Complete(Number::Real(Real(text)), end);
    assert_eq!(number(b"0 ", 0), integer("0", 1));
    assert_eq!(number(b"12,", 0), integer("12", 2));
    assert_eq!(number(b"-12,", 0), integer("-12", 3));
    assert_eq!(number(b"+0)", 0), integer("+0", 2));
    assert_eq!(number(b"012,", 0), integer("0", 1));
    assert_eq!(number(b"1/2,", 0), rational("1/2", 3));
    assert_eq!(number(b"-10/23)", 0), rational("-10/23", 6));
    assert_eq!(number(b"1/0,", 0), integer("1", 1));
    assert_eq!(number(b"1/*c*/,", 0), integer("1", 1));
    assert_eq!(number(b"1/ ", 0), integer("1", 1));
    assert_eq!(number(b"1.5,", 0), real("1.5", 3));
    assert_eq!(number(b"1.05e10,", 0), real("1.05e10", 7));
    assert_eq!(number(b"1.5E-3,", 0), real("1.5E-3", 6));
    assert_eq!(number(b"+2e+7,", 0), real("+2e+7", 5));
    assert_eq!(number(b"2e,", 0), integer("2", 1));
    assert_eq!(number(b"2e+,", 0), integer("2", 1));
    assert_eq!(number(b"1.5e,", 0), real("1.5", 3));
    assert_eq!(number(b"1.,", 0), integer("1", 1));
    assert_eq!(number(b"1.x", 0), integer("1", 1));
    assert_eq!(number(b"a", 0), Outcome::Malformed(0, Expected::Digit));
    assert_eq!(number(b"-a", 0), Outcome::Malformed(1, Expected::Digit));
    assert_eq!(number(b"", 0), Outcome::Incomplete);
    assert_eq!(number(b"-", 0), Outcome::Incomplete);
    assert_eq!(number(b"12", 0), Outcome::Incomplete);
    assert_eq!(number(b"1/", 0), Outcome::Incomplete);
    assert_eq!(number(b"1/2", 0), Outcome::Incomplete);
    assert_eq!(number(b"1.", 0), Outcome::Incomplete);
    assert_eq!(number(b"1.5", 0), Outcome::Incomplete);
    assert_eq!(number(b"1.5e", 0), Outcome::Incomplete);
    assert_eq!(number(b"1e+", 0), Outcome::Incomplete);
    assert_eq!(number(b"1e+5", 0), Outcome::Incomplete);
}

#[test]
fn outcome_kinds() {
    let complete: Outcome<u8> = Outcome::Complete(1, 2);
    let incomplete: Outcome<u8> = Outcome::Incomplete;
    let malformed: Outcome<u8> = Outcome::Malformed(3, Expected::Term);
    assert!(complete.is_complete() && !complete.is_incomplete() && !complete.is_malformed());
    assert!(!incomplete.is_complete() && incomplete.is_incomplete() && !incomplete.is_malformed());
    assert!(!malformed.is_complete() && !malformed.is_incomplete() && malformed.is_malformed());
}
