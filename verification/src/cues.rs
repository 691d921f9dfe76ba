//! Text format in which a track's eight hot-cue positions are stored: the
//! eight slots joined by commas, each slot the decimal text of its sample
//! position or empty when unset. Decoding is tolerant: surrounding
//! whitespace is ignored and an unreadable slot reads as unset.

use vstd::prelude::*;

verus! {

/// Number of hot-cue slots of a track.
pub const NUM_CUES: usize = 8;

// ---------------------------------------------------------------------------
// Decimal text of integers
// ---------------------------------------------------------------------------

/// The character of decimal digit `d` (0 to 9).
pub open spec fn digit_char(d: nat) -> char {
    if d == 0 { '0' }
    else if d == 1 { '1' }
    else if d == 2 { '2' }
    else if d == 3 { '3' }
    else if d == 4 { '4' }
    else if d == 5 { '5' }
    else if d == 6 { '6' }
    else if d == 7 { '7' }
    else if d == 8 { '8' }
    else { '9' }
}

/// Whether `c` is an ASCII decimal digit.
pub open spec fn is_digit(c: char) -> bool {
    '0' <= c && c <= '9'
}

/// The value of the ASCII decimal digit `c`.
pub open spec fn digit_value(c: char) -> nat {
    (c as nat - '0' as nat) as nat
}

/// Decimal digits of `n`, most significant first, without leading zeros
/// ("0" for zero).
pub open spec fn decimal_digits(n: nat) -> Seq<char>
    decreases n,
{
    if n < 10 {
        seq![digit_char(n)]
    } else {
        decimal_digits(n / 10).push(digit_char(n % 10))
    }
}

/// The text that `i64::to_string` gives: an optional minus sign, then the
/// decimal digits of the magnitude.
pub open spec fn int_text(v: int) -> Seq<char> {
    if v < 0 {
        seq!['-'] + decimal_digits((-v) as nat)
    } else {
        decimal_digits(v as nat)
    }
}

/// Whether every character of `s` is an ASCII decimal digit.
pub open spec fn all_digits(s: Seq<char>) -> bool {
    forall|i: int| 0 <= i < s.len() ==> is_digit(#[trigger] s[i])
}

/// The value of a string of decimal digits.
pub open spec fn digits_value(s: Seq<char>) -> nat
    decreases s.len(),
{
    if s.len() == 0 {
        0
    } else {
        digits_value(s.drop_last()) * 10 + digit_value(s.last())
    }
}

/// What `str::parse::<i64>` accepts and returns: an optional `+` or `-`
/// sign, then one or more ASCII digits whose signed value fits in an `i64`.
pub open spec fn parse_int(s: Seq<char>) -> Option<i64> {
    let neg = s.len() > 0 && s[0] == '-';
    let digits = if s.len() > 0 && (s[0] == '-' || s[0] == '+') {
        s.drop_first()
    } else {
        s
    };
    let value: int = if neg { -digits_value(digits) } else { digits_value(digits) as int };
    if digits.len() == 0 || !all_digits(digits) || value < i64::MIN || value > i64::MAX {
        None
    } else {
        Some(value as i64)
    }
}

// ---------------------------------------------------------------------------
// Whitespace trimming
// ---------------------------------------------------------------------------

/// Unicode `White_Space`, the set that `char::is_whitespace` tests.
pub open spec fn is_white(c: char) -> bool {
    ||| ('\u{9}' <= c && c <= '\u{d}')
    ||| c == ' '
    ||| c == '\u{85}'
    ||| c == '\u{a0}'
    ||| c == '\u{1680}'
    ||| ('\u{2000}' <= c && c <= '\u{200a}')
    ||| c == '\u{2028}'
    ||| c == '\u{2029}'
    ||| c == '\u{202f}'
    ||| c == '\u{205f}'
    ||| c == '\u{3000}'
}

/// `s` without its leading whitespace.
pub open spec fn trim_start(s: Seq<char>) -> Seq<char>
    decreases s.len(),
{
    if s.len() > 0 && is_white(s[0]) {
        trim_start(s.drop_first())
    } else {
        s
    }
}

/// `s` without its trailing whitespace.
pub open spec fn trim_end(s: Seq<char>) -> Seq<char>
    decreases s.len(),
{
    if s.len() > 0 && is_white(s.last()) {
        trim_end(s.drop_last())
    } else {
        s
    }
}

/// What `str::trim` gives: `s` without leading and trailing whitespace.
pub open spec fn trim(s: Seq<char>) -> Seq<char> {
    trim_end(trim_start(s))
}

// ---------------------------------------------------------------------------
// Splitting and joining on commas
// ---------------------------------------------------------------------------

/// The fields that `str::split(',')` yields: the text between commas,
/// empty fields included; a text without commas is one field.
pub open spec fn split_commas(s: Seq<char>) -> Seq<Seq<char>>
    decreases s.len(),
{
    if s.len() == 0 {
        seq![Seq::<char>::empty()]
    } else {
        let rest = split_commas(s.drop_first());
        if s[0] == ',' {
            seq![Seq::<char>::empty()] + rest
        } else {
            rest.update(0, seq![s[0]] + rest[0])
        }
    }
}

/// The fields joined with a comma between each two.
pub open spec fn join_commas(fields: Seq<Seq<char>>) -> Seq<char>
    decreases fields.len(),
{
    if fields.len() <= 1 {
        if fields.len() == 0 { Seq::<char>::empty() } else { fields[0] }
    } else {
        fields[0] + seq![','] + join_commas(fields.drop_first())
    }
}

/// Whether `s` holds no comma.
pub open spec fn comma_free(s: Seq<char>) -> bool {
    forall|i: int| 0 <= i < s.len() ==> #[trigger] s[i] != ','
}

// ---------------------------------------------------------------------------
// The cue format
// ---------------------------------------------------------------------------

/// Text of one slot: the decimal position, or nothing when unset.
pub open spec fn cue_field(c: Option<i64>) -> Seq<char> {
    match c {
        Some(v) => int_text(v as int),
        None => Seq::<char>::empty(),
    }
}

/// Whether no slot is set.
pub open spec fn no_cue_set(cues: Seq<Option<i64>>) -> bool {
    forall|i: int| 0 <= i < cues.len() ==> #[trigger] cues[i] is None
}

/// The stored text of a set of cues: `None` when no slot is set, otherwise
/// the slot texts joined by commas.
pub open spec fn cues_text(cues: Seq<Option<i64>>) -> Option<Seq<char>> {
    if no_cue_set(cues) {
        None
    } else {
        Some(join_commas(cues.map_values(|c: Option<i64>| cue_field(c))))
    }
}

/// The slot `i` read back from stored text: the `i`-th comma-separated
/// field, trimmed and parsed; unset when absent or unreadable.
pub open spec fn cue_slot_from_text(s: Seq<char>, i: int) -> Option<i64> {
    let fields = split_commas(s);
    if i < fields.len() {
        parse_int(trim(fields[i]))
    } else {
        None
    }
}

/// The eight slots read back from stored text (all unset for `None`).
pub open spec fn cues_from_text(s: Option<Seq<char>>) -> Seq<Option<i64>> {
    Seq::new(
        NUM_CUES as nat,
        |i: int|
            match s {
                Some(t) => cue_slot_from_text(t, i),
                None => None,
            },
    )
}

// ---------------------------------------------------------------------------
// Lemmas
// ---------------------------------------------------------------------------

proof fn lemma_digit_char(d: nat)
    requires
        d < 10,
    ensures
        is_digit(digit_char(d)),
        digit_value(digit_char(d)) == d,
        !is_white(digit_char(d)),
        digit_char(d) != ',',
        digit_char(d) != '-',
        digit_char(d) != '+',
{
}

proof fn lemma_decimal_digits(n: nat)
    ensures
        decimal_digits(n).len() > 0,
        all_digits(decimal_digits(n)),
        digits_value(decimal_digits(n)) == n,
        comma_free(decimal_digits(n)),
        !is_white(decimal_digits(n)[0]),
        !is_white(decimal_digits(n).last()),
        decimal_digits(n)[0] != '-',
        decimal_digits(n)[0] != '+',
    decreases n,
{
    if n < 10 {
        lemma_digit_char(n);
        assert(digits_value(decimal_digits(n)) == digits_value(decimal_digits(n).drop_last()) * 10
            + digit_value(decimal_digits(n).last()));
        assert(decimal_digits(n).drop_last() =~= Seq::<char>::empty());
    } else {
        lemma_decimal_digits(n / 10);
        lemma_digit_char(n % 10);
        let d = decimal_digits(n);
        assert(d.drop_last() =~= decimal_digits(n / 10));
        assert(d[0] == decimal_digits(n / 10)[0]);
    }
}

proof fn lemma_trim_start_id(s: Seq<char>)
    requires
        s.len() == 0 || !is_white(s[0]),
    ensures
        trim_start(s) == s,
{
}

proof fn lemma_trim_end_id(s: Seq<char>)
    requires
        s.len() == 0 || !is_white(s.last()),
    ensures
        trim_end(s) == s,
{
}

/// The decimal text of an integer has no surrounding whitespace, no comma,
/// and parses back to the integer.
proof fn lemma_int_text(v: i64)
    ensures
        parse_int(int_text(v as int)) == Some(v),
        trim(int_text(v as int)) == int_text(v as int),
        comma_free(int_text(v as int)),
{
    let t = int_text(v as int);
    if v < 0 {
        let m = (-v) as nat;
        lemma_decimal_digits(m);
        let d = decimal_digits(m);
        assert(t.drop_first() =~= d);
        assert(t.last() == d.last());
        assert forall|i: int| 0 <= i < t.len() implies #[trigger] t[i] != ',' by {
            if i > 0 {
                assert(t[i] == d[i - 1]);
            }
        }
    } else {
        lemma_decimal_digits(v as nat);
    }
    lemma_trim_start_id(t);
    lemma_trim_end_id(t);
}

proof fn lemma_split_comma_free(a: Seq<char>)
    requires
        comma_free(a),
    ensures
        split_commas(a) == seq![a],
    decreases a.len(),
{
    if a.len() > 0 {
        lemma_split_comma_free(a.drop_first());
        assert(a[0] != ',');
        let rest = split_commas(a.drop_first());
        assert(rest == seq![a.drop_first()]);
        assert(seq![a[0]] + a.drop_first() =~= a);
        assert(rest.update(0, seq![a[0]] + rest[0]) =~= seq![a]);
        assert(split_commas(a) == rest.update(0, seq![a[0]] + rest[0]));
    } else {
        assert(a =~= Seq::<char>::empty());
    }
}

proof fn lemma_split_field(a: Seq<char>, b: Seq<char>)
    requires
        comma_free(a),
    ensures
        split_commas(a + seq![','] + b) == seq![a] + split_commas(b),
    decreases a.len(),
{
    let s = a + seq![','] + b;
    if a.len() == 0 {
        assert(a =~= Seq::<char>::empty());
        assert(s.drop_first() =~= b);
        assert(s[0] == ',');
    } else {
        let a1 = a.drop_first();
        lemma_split_field(a1, b);
        assert(s.drop_first() =~= a1 + seq![','] + b);
        assert(seq![a[0]] + a1 =~= a);
        assert(s[0] == a[0]);
        assert(a[0] != ',');
        let rest = split_commas(s.drop_first());
        assert(rest == seq![a1] + split_commas(b));
        assert(rest[0] == a1);
        assert(rest.update(0, seq![a[0]] + rest[0]) =~= seq![a] + split_commas(b));
    }
}

proof fn lemma_split_join(fields: Seq<Seq<char>>)
    requires
        fields.len() >= 1,
        forall|i: int| 0 <= i < fields.len() ==> comma_free(#[trigger] fields[i]),
    ensures
        split_commas(join_commas(fields)) == fields,
    decreases fields.len(),
{
    if fields.len() == 1 {
        lemma_split_comma_free(fields[0]);
        assert(seq![fields[0]] =~= fields);
    } else {
        let rest = fields.drop_first();
        assert forall|i: int| 0 <= i < rest.len() implies comma_free(#[trigger] rest[i]) by {
            assert(rest[i] == fields[i + 1]);
        }
        lemma_split_join(rest);
        lemma_split_field(fields[0], join_commas(rest));
        assert(seq![fields[0]] + rest =~= fields);
    }
}

/// Stored cues read back as they were: decoding the text that encoding
/// gives returns the eight slots unchanged.
pub proof fn lemma_cues_round_trip(cues: Seq<Option<i64>>)
    requires
        cues.len() == NUM_CUES,
    ensures
        cues_from_text(cues_text(cues)) == cues,
{
    let r = cues_from_text(cues_text(cues));
    if no_cue_set(cues) {
        assert forall|i: int| 0 <= i < cues.len() implies r[i] == cues[i] by {
            assert(cues[i] is None);
        }
        assert(r =~= cues);
    } else {
        let fields = cues.map_values(|c: Option<i64>| cue_field(c));
        assert forall|i: int| 0 <= i < fields.len() implies comma_free(#[trigger] fields[i]) by {
            match cues[i] {
                Some(v) => lemma_int_text(v),
                None => {},
            }
        }
        lemma_split_join(fields);
        assert forall|i: int| 0 <= i < cues.len() implies r[i] == cues[i] by {
            assert(fields[i] == cue_field(cues[i]));
            match cues[i] {
                Some(v) => lemma_int_text(v),
                None => {
                    assert(trim(Seq::<char>::empty()) =~= Seq::<char>::empty());
                },
            }
        }
        assert(r =~= cues);
    }
}

// ---------------------------------------------------------------------------
// Executable encoding and decoding
// ---------------------------------------------------------------------------

/// The characters of `s`, in order.
fn chars_of(s: &str) -> (r: Vec<char>)
    ensures
        r@ == s@,
{
    let mut r: Vec<char> = Vec::new();
    for c in it: s.chars()
        invariant
            r@ == it.seq().take(it.index() as int),
            it.seq() == s@,
    {
        r.push(c);
    }
    r
}

/// The text of `chars` as a `String` (`String::from_iter` over the
/// characters): the string holds exactly those characters, in order.
#[verifier::external_body]
pub(crate) fn string_from_chars(chars: Vec<char>) -> (r: String)
    ensures
        r@ == chars@,
{
    String::from_iter(chars)
}

/// The character of decimal digit `d`.
fn digit_to_char(d: u64) -> (c: char)
    requires
        d < 10,
    ensures
        c == digit_char(d as nat),
{
    if d == 0 { '0' }
    else if d == 1 { '1' }
    else if d == 2 { '2' }
    else if d == 3 { '3' }
    else if d == 4 { '4' }
    else if d == 5 { '5' }
    else if d == 6 { '6' }
    else if d == 7 { '7' }
    else if d == 8 { '8' }
    else { '9' }
}

/// Appends the decimal digits of `n` to `out`.
fn push_decimal_digits(out: &mut Vec<char>, n: u64)
    ensures
        final(out)@ == old(out)@ + decimal_digits(n as nat),
{
    let mut m = n;
    let mut rev: Vec<char> = Vec::new();
    let ghost mut suffix: Seq<char> = Seq::empty();
    while m >= 10
        invariant
            decimal_digits(n as nat) == decimal_digits(m as nat) + suffix,
            rev@.len() == suffix.len(),
            forall|i: int| 0 <= i < rev@.len() ==> rev@[i] == suffix[suffix.len() - 1 - i],
        decreases m,
    {
        let c = digit_to_char(m % 10);
        proof {
            assert(decimal_digits(m as nat) == decimal_digits((m / 10) as nat).push(c));
            suffix = seq![c] + suffix;
            assert(decimal_digits(n as nat) =~= decimal_digits((m / 10) as nat) + suffix);
        }
        rev.push(c);
        m = m / 10;
    }
    let first = digit_to_char(m);
    assert(decimal_digits(m as nat) == seq![first]);
    out.push(first);
    let ghost base = out@;
    let mut j = rev.len();
    while j > 0
        invariant
            j <= rev@.len(),
            rev@.len() == suffix.len(),
            forall|i: int| 0 <= i < rev@.len() ==> rev@[i] == suffix[suffix.len() - 1 - i],
            out@ == base + suffix.take(suffix.len() - j),
        decreases j,
    {
        j = j - 1;
        out.push(rev[j]);
        assert(suffix.take(suffix.len() - j) =~= suffix.take(suffix.len() - j - 1).push(rev@[j as int]));
    }
    assert(suffix.take(suffix.len() as int) =~= suffix);
    assert(final(out)@ =~= old(out)@ + decimal_digits(n as nat)) by {
        assert(base == old(out)@.push(first));
    }
}

/// Appends the decimal text of `v` (as `i64::to_string` writes it) to `out`.
fn push_int_text(out: &mut Vec<char>, v: i64)
    ensures
        final(out)@ == old(out)@ + int_text(v as int),
{
    if v < 0 {
        out.push('-');
        let m: u64 = (-(v as i128)) as u64;
        push_decimal_digits(out, m);
        assert(final(out)@ =~= old(out)@ + int_text(v as int));
    } else {
        push_decimal_digits(out, v as u64);
    }
}

proof fn lemma_join_push(fields: Seq<Seq<char>>, x: Seq<char>)
    requires
        fields.len() >= 1,
    ensures
        join_commas(fields.push(x)) == join_commas(fields) + seq![','] + x,
    decreases fields.len(),
{
    let p = fields.push(x);
    assert(p[0] == fields[0]);
    if fields.len() == 1 {
        assert(p.drop_first() =~= seq![x]);
        assert(join_commas(seq![x]) == x);
        assert(join_commas(p) == fields[0] + seq![','] + x);
    } else {
        lemma_join_push(fields.drop_first(), x);
        assert(p.drop_first() =~= fields.drop_first().push(x));
        assert(join_commas(p) =~= join_commas(fields) + seq![','] + x);
    }
}

/// Encodes eight cue slots as comma-separated text (empty field = unset);
/// `None` when no slot is set.
pub fn encode_cues(cues: &[Option<i64>; 8]) -> (r: Option<String>)
    ensures
        match r {
            Some(s) => cues_text(cues@) == Some(s@),
            None => cues_text(cues@) is None,
        },
{
    let mut any_set = false;
    for i in 0..8
        invariant
            cues@.len() == 8,
            any_set <==> exists|j: int| 0 <= j < i && (#[trigger] cues@[j]) is Some,
    {
        if cues[i].is_some() {
            any_set = true;
        }
    }
    if !any_set {
        assert(no_cue_set(cues@));
        return None;
    }
    let ghost fields = cues@.map_values(|c: Option<i64>| cue_field(c));
    let mut out: Vec<char> = Vec::new();
    for i in 0..8
        invariant
            cues@.len() == 8,
            fields == cues@.map_values(|c: Option<i64>| cue_field(c)),
            i == 0 ==> out@ == Seq::<char>::empty(),
            i > 0 ==> out@ == join_commas(fields.take(i as int)),
    {
        let ghost before = out@;
        if i > 0 {
            out.push(',');
        }
        match cues[i] {
            Some(v) => push_int_text(&mut out, v),
            None => {},
        }
        proof {
            assert(fields[i as int] == cue_field(cues@[i as int]));
            assert(out@ =~= (if i > 0 { before + seq![','] } else { before }) + fields[i as int]);
            if i == 0 {
                assert(fields.take(1) =~= seq![fields[0]]);
            } else {
                lemma_join_push(fields.take(i as int), fields[i as int]);
                assert(fields.take(i as int).push(fields[i as int]) =~= fields.take(i + 1));
            }
        }
    }
    assert(fields.take(8) =~= fields);
    Some(string_from_chars(out))
}

/// Whether `c` is Unicode whitespace (`char::is_whitespace`).
fn is_white_char(c: char) -> (r: bool)
    ensures
        r == is_white(c),
{
    ('\u{9}' <= c && c <= '\u{d}') || c == ' ' || c == '\u{85}' || c == '\u{a0}'
        || c == '\u{1680}' || ('\u{2000}' <= c && c <= '\u{200a}') || c == '\u{2028}'
        || c == '\u{2029}' || c == '\u{202f}' || c == '\u{205f}' || c == '\u{3000}'
}

/// Bounds of `chars[lo..hi]` with surrounding whitespace removed.
fn trim_bounds(chars: &Vec<char>, lo: usize, hi: usize) -> (r: (usize, usize))
    requires
        lo <= hi <= chars@.len(),
    ensures
        lo <= r.0 <= r.1 <= hi,
        chars@.subrange(r.0 as int, r.1 as int) == trim(chars@.subrange(lo as int, hi as int)),
{
    let mut a = lo;
    while a < hi && is_white_char(chars[a])
        invariant
            lo <= a <= hi <= chars@.len(),
            trim_start(chars@.subrange(lo as int, hi as int)) == trim_start(
                chars@.subrange(a as int, hi as int),
            ),
        decreases hi - a,
    {
        assert(chars@.subrange(a as int, hi as int).drop_first() =~= chars@.subrange(
            a + 1,
            hi as int,
        ));
        a = a + 1;
    }
    assert(trim_start(chars@.subrange(a as int, hi as int)) == chars@.subrange(a as int, hi as int));
    let mut b = hi;
    while b > a && is_white_char(chars[b - 1])
        invariant
            lo <= a <= b <= hi <= chars@.len(),
            trim_end(chars@.subrange(a as int, hi as int)) == trim_end(
                chars@.subrange(a as int, b as int),
            ),
        decreases b,
    {
        assert(chars@.subrange(a as int, b as int).drop_last() =~= chars@.subrange(
            a as int,
            b - 1,
        ));
        b = b - 1;
    }
    (a, b)
}

proof fn lemma_digits_value_push(s: Seq<char>, c: char)
    ensures
        digits_value(s.push(c)) == digits_value(s) * 10 + digit_value(c),
{
    assert(s.push(c).drop_last() =~= s);
}

/// Parses `chars[lo..hi]` as `str::parse::<i64>` does.
fn parse_range(chars: &Vec<char>, lo: usize, hi: usize) -> (r: Option<i64>)
    requires
        lo <= hi <= chars@.len(),
    ensures
        r == parse_int(chars@.subrange(lo as int, hi as int)),
{
    let ghost s = chars@.subrange(lo as int, hi as int);
    let mut i = lo;
    let mut neg = false;
    if lo < hi && (chars[lo] == '-' || chars[lo] == '+') {
        neg = chars[lo] == '-';
        i = lo + 1;
    }
    let ghost digits = chars@.subrange(i as int, hi as int);
    assert(digits =~= (if s.len() > 0 && (s[0] == '-' || s[0] == '+') {
        s.drop_first()
    } else {
        s
    }));
    if i == hi {
        return None;
    }
    // Largest magnitude the sign allows.
    let limit: u64 = if neg { 0x8000_0000_0000_0000u64 } else { 0x7fff_ffff_ffff_ffffu64 };
    let mut acc: u64 = 0;
    let start = i;
    while i < hi
        invariant
            start <= i <= hi <= chars@.len(),
            digits == chars@.subrange(start as int, hi as int),
            all_digits(chars@.subrange(start as int, i as int)),
            acc == digits_value(chars@.subrange(start as int, i as int)),
            acc <= limit,
            limit == (if neg { 0x8000_0000_0000_0000u64 } else { 0x7fff_ffff_ffff_ffffu64 }),
            s == chars@.subrange(lo as int, hi as int),
            neg == (s.len() > 0 && s[0] == '-'),
            digits == (if s.len() > 0 && (s[0] == '-' || s[0] == '+') {
                s.drop_first()
            } else {
                s
            }),
            digits.len() > 0,
        decreases hi - i,
    {
        let c = chars[i];
        proof {
            lemma_digits_value_push(chars@.subrange(start as int, i as int), c);
            assert(chars@.subrange(start as int, i as int).push(c) =~= chars@.subrange(
                start as int,
                i + 1,
            ));
        }
        if !('0' <= c && c <= '9') {
            proof {
                assert(digits[i - start] == c);
            }
            return None;
        }
        let d: u64 = (c as u32 - '0' as u32) as u64;
        if acc > (limit - d) / 10 {
            proof {
                lemma_digits_value_monotone(digits, (i + 1 - start) as int);
                assert(digits.take((i + 1 - start) as int) =~= chars@.subrange(
                    start as int,
                    i + 1,
                ));
            }
            return None;
        }
        acc = acc * 10 + d;
        i = i + 1;
    }
    assert(chars@.subrange(start as int, i as int) =~= digits);
    if neg {
        if acc == 0x8000_0000_0000_0000u64 {
            Some(i64::MIN)
        } else {
            Some(-(acc as i64))
        }
    } else {
        Some(acc as i64)
    }
}

proof fn lemma_digits_value_monotone(s: Seq<char>, k: int)
    requires
        0 <= k <= s.len(),
    ensures
        digits_value(s.take(k)) <= digits_value(s),
    decreases s.len() - k,
{
    if k < s.len() {
        lemma_digits_value_monotone(s, k + 1);
        lemma_digits_value_push(s.take(k), s[k]);
        assert(s.take(k).push(s[k]) =~= s.take(k + 1));
    } else {
        assert(s.take(k) =~= s);
    }
}

/// The characters of an optional stored text.
pub open spec fn text_view(s: &Option<String>) -> Option<Seq<char>> {
    match s {
        Some(t) => Some(t@),
        None => None,
    }
}

/// Decodes stored cue text back into the eight slots: field `i` of the
/// comma-separated text, trimmed and parsed, fills slot `i`; a missing or
/// unreadable field leaves its slot unset.
pub fn decode_cues(s: Option<String>) -> (r: [Option<i64>; 8])
    ensures
        r@ == cues_from_text(text_view(&s)),
{
    let mut out: [Option<i64>; 8] = [None; 8];
    let ghost text = text_view(&s);
    match &s {
        None => {
            assert(out@ =~= cues_from_text(text));
            out
        },
        Some(t) => {
            let chars = chars_of(t.as_str());
            let n = chars.len();
            let mut start: usize = 0;
            let mut k: usize = 0;
            let ghost mut done: Seq<Seq<char>> = Seq::empty();
            let mut finished = false;
            assert(chars@.subrange(0, n as int) =~= chars@);
            assert(done + split_commas(chars@) =~= split_commas(chars@));
            while k < 8 && !finished
                invariant
                    chars@ == t@,
                    n == chars@.len(),
                    start <= n,
                    k <= 8,
                    done.len() == k,
                    !finished ==> split_commas(chars@) == done + split_commas(
                        chars@.subrange(start as int, n as int),
                    ),
                    finished ==> split_commas(chars@) == done,
                    forall|i: int| 0 <= i < k ==> out@[i] == parse_int(trim(#[trigger] done[i])),
                    forall|i: int| k <= i < 8 ==> out@[i] is None,
                decreases 8 - k,
            {
                let mut j = start;
                while j < n && chars[j] != ','
                    invariant
                        start <= j <= n,
                        n == chars@.len(),
                        comma_free(chars@.subrange(start as int, j as int)),
                    decreases n - j,
                {
                    assert(chars@.subrange(start as int, j + 1) =~= chars@.subrange(
                        start as int,
                        j as int,
                    ).push(chars@[j as int]));
                    j = j + 1;
                }
                let ghost field = chars@.subrange(start as int, j as int);
                let (a, b) = trim_bounds(&chars, start, j);
                let v = parse_range(&chars, a, b);
                out[k] = v;
                proof {
                    let rest = chars@.subrange(start as int, n as int);
                    if j == n {
                        assert(rest =~= field);
                        lemma_split_comma_free(field);
                    } else {
                        assert(rest =~= field + seq![','] + chars@.subrange(j + 1, n as int));
                        lemma_split_field(field, chars@.subrange(j + 1, n as int));
                    }
                    done = done.push(field);
                }
                k = k + 1;
                if j == n {
                    finished = true;
                    assert(split_commas(chars@) =~= done);
                } else {
                    start = j + 1;
                    assert(split_commas(chars@) =~= done + split_commas(
                        chars@.subrange(start as int, n as int),
                    ));
                }
            }
            proof {
                let fields = split_commas(chars@);
                assert forall|i: int| 0 <= i < 8 implies out@[i] == #[trigger] cues_from_text(
                    text,
                )[i] by {
                    if i < k {
                        assert(fields[i] == done[i]);
                    } else {
                        assert(finished);
                    }
                }
                assert(out@ =~= cues_from_text(text));
            }
            out
        },
    }
}

/// Eight cue slots from a list of any length: the first eight values in
/// order, unset slots for a shorter list; values beyond eight are ignored.
pub fn cues_from_list(cues: &Vec<Option<i64>>) -> (r: [Option<i64>; 8])
    ensures
        forall|i: int| 0 <= i < 8 ==> #[trigger] r@[i] == (if i < cues@.len() { cues@[i] } else { None }),
{
    let mut out: [Option<i64>; 8] = [None; 8];
    let n = cues.len();
    let mut i: usize = 0;
    while i < 8 && i < n
        invariant
            i <= 8,
            i <= n,
            n == cues@.len(),
            forall|j: int| 0 <= j < i ==> out@[j] == cues@[j],
            forall|j: int| i <= j < 8 ==> out@[j] is None,
        decreases 8 - i,
    {
        out[i] = cues[i];
        i = i + 1;
    }
    assert forall|j: int| 0 <= j < 8 implies #[trigger] out@[j] == (if j < cues@.len() {
        cues@[j]
    } else {
        None
    }) by {
        if j < i {
        } else {
            assert(j >= n);
        }
    }
    out
}

} // verus!
