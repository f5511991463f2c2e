//! Text: comparison, case folding, trimming and decimal numbers, all stated
//! over sequences of characters.
use vstd::prelude::*;
use vstd::string::*;

verus! {

/// The characters of a text, for access by position.
pub fn chars_of(s: &str) -> (v: Vec<char>)
    ensures
        v@ == s@,
{
    let mut v: Vec<char> = Vec::new();
    for c in it: s.chars()
        invariant
            it.seq() == s@,
            v@ == it.seq().take(it.index() as int),
    {
        v.push(c);
    }
    v
}

/// Whether two texts hold the same characters.
pub fn text_eq(a: &str, b: &str) -> (same: bool)
    ensures
        same == (a@ == b@),
{
    a.to_owned() == b.to_owned()
}

/// A copy of an optional text.
pub fn clone_opt(o: &Option<String>) -> (res: Option<String>)
    ensures
        res == *o,
{
    match o {
        Some(s) => Some(s.clone()),
        None => None,
    }
}

// ---- ASCII case ----
/// The lower-case form of an ASCII letter; every other character stands for itself.
pub open spec fn ascii_lower(c: char) -> char {
    if 'A' <= c && c <= 'Z' {
        ((c as u32) + 32) as char
    } else {
        c
    }
}

/// A text with its ASCII letters in lower case.
pub open spec fn ascii_fold(s: Seq<char>) -> Seq<char> {
    Seq::new(s.len(), |i: int| ascii_lower(s[i]))
}

fn lower_ascii(c: char) -> (r: char)
    ensures
        r == ascii_lower(c),
{
    if 'A' <= c && c <= 'Z' {
        ((c as u8) + 32) as char
    } else {
        c
    }
}

/// Whether two texts are the same but for the case of ASCII letters.
pub fn eq_ignore_ascii_case(a: &str, b: &str) -> (same: bool)
    ensures
        same == (ascii_fold(a@) == ascii_fold(b@)),
{
    let x = chars_of(a);
    let y = chars_of(b);
    if x.len() != y.len() {
        assert(ascii_fold(a@).len() != ascii_fold(b@).len());
        return false;
    }
    let mut i: usize = 0;
    while i < x.len()
        invariant
            x@ == a@,
            y@ == b@,
            x.len() == y.len(),
            i <= x.len(),
            forall|j: int| 0 <= j < i ==> ascii_lower(#[trigger] x[j]) == ascii_lower(y[j]),
        decreases x.len() - i,
    {
        if lower_ascii(x[i]) != lower_ascii(y[i]) {
            assert(ascii_fold(a@)[i as int] != ascii_fold(b@)[i as int]);
            return false;
        }
        i += 1;
    }
    assert(ascii_fold(a@) =~= ascii_fold(b@)) by {
        assert forall|j: int| 0 <= j < x.len() implies ascii_fold(a@)[j] == ascii_fold(b@)[j] by {
            assert(ascii_lower(x[j]) == ascii_lower(y[j]));
        }
    }
    true
}

// ---- Order ----
/// Whether `a` comes before `b`, or equals it, in the order of code points.
pub open spec fn text_leq(a: Seq<char>, b: Seq<char>) -> bool
    decreases a.len(),
{
    if a.len() == 0 {
        true
    } else if b.len() == 0 {
        false
    } else if a[0] != b[0] {
        a[0] < b[0]
    } else {
        text_leq(a.drop_first(), b.drop_first())
    }
}

pub proof fn lemma_text_leq_total(a: Seq<char>, b: Seq<char>)
    ensures
        text_leq(a, b) || text_leq(b, a),
    decreases a.len(),
{
    if a.len() > 0 && b.len() > 0 {
        lemma_text_leq_total(a.drop_first(), b.drop_first());
    }
}

pub proof fn lemma_text_leq_transitive(a: Seq<char>, b: Seq<char>, c: Seq<char>)
    requires
        text_leq(a, b),
        text_leq(b, c),
    ensures
        text_leq(a, c),
    decreases a.len(),
{
    if a.len() > 0 && b.len() > 0 && c.len() > 0 && a[0] == b[0] && b[0] == c[0] {
        lemma_text_leq_transitive(a.drop_first(), b.drop_first(), c.drop_first());
    }
}

/// Texts that do not exceed one another are the same.
pub proof fn lemma_text_leq_antisymmetric(a: Seq<char>, b: Seq<char>)
    requires
        text_leq(a, b),
        text_leq(b, a),
    ensures
        a == b,
    decreases a.len(),
{
    if a.len() > 0 && b.len() > 0 {
        lemma_text_leq_antisymmetric(a.drop_first(), b.drop_first());
        assert(a =~= seq![a[0]] + a.drop_first());
        assert(b =~= seq![b[0]] + b.drop_first());
    } else {
        assert(a =~= b);
    }
}

pub fn text_le(a: &str, b: &str) -> (le: bool)
    ensures
        le == text_leq(a@, b@),
{
    let x = chars_of(a);
    let y = chars_of(b);
    let mut i: usize = 0;
    assert(a@.skip(0) =~= a@);
    assert(b@.skip(0) =~= b@);
    while i < x.len() && i < y.len()
        invariant
            x@ == a@,
            y@ == b@,
            i <= x.len(),
            i <= y.len(),
            text_leq(a@, b@) == text_leq(a@.skip(i as int), b@.skip(i as int)),
        decreases x.len() - i,
    {
        if x[i] != y[i] {
            return x[i] < y[i];
        }
        assert(a@.skip(i as int).drop_first() =~= a@.skip(i + 1));
        assert(b@.skip(i as int).drop_first() =~= b@.skip(i + 1));
        i += 1;
    }
    i >= x.len()
}

// ---- White space and lower case ----
/// The characters with the Unicode property `White_Space`.
pub open spec fn white_space(c: char) -> bool {
    let n = c as u32;
    ||| 0x9 <= n <= 0xd
    ||| n == 0x20
    ||| n == 0x85
    ||| n == 0xa0
    ||| n == 0x1680
    ||| 0x2000 <= n <= 0x200a
    ||| n == 0x2028
    ||| n == 0x2029
    ||| n == 0x202f
    ||| n == 0x205f
    ||| n == 0x3000
}

fn is_white_space(c: char) -> (b: bool)
    ensures
        b == white_space(c),
{
    let n: u32 = c as u32;
    (0x9 <= n && n <= 0xd) || n == 0x20 || n == 0x85 || n == 0xa0 || n == 0x1680 || (0x2000 <= n
        && n <= 0x200a) || n == 0x2028 || n == 0x2029 || n == 0x202f || n == 0x205f || n == 0x3000
}

/// The number of leading characters that are white space.
pub open spec fn leading_white(s: Seq<char>) -> nat
    decreases s.len(),
{
    if s.len() > 0 && white_space(s[0]) {
        1 + leading_white(s.drop_first())
    } else {
        0
    }
}

/// A text without the white space at its end.
pub open spec fn trimmed_end(s: Seq<char>) -> Seq<char>
    decreases s.len(),
{
    if s.len() > 0 && white_space(s.last()) {
        trimmed_end(s.drop_last())
    } else {
        s
    }
}

/// A text without the white space at either end.
pub open spec fn trimmed(s: Seq<char>) -> Seq<char> {
    trimmed_end(s.skip(leading_white(s) as int))
}

proof fn lemma_leading_white(s: Seq<char>, k: int)
    requires
        0 <= k <= s.len(),
        forall|j: int| 0 <= j < k ==> white_space(#[trigger] s[j]),
        k < s.len() ==> !white_space(s[k]),
    ensures
        leading_white(s) == k,
    decreases s.len(),
{
    if k > 0 {
        assert(white_space(s[0]));
        assert forall|j: int| 0 <= j < k - 1 implies white_space(#[trigger] s.drop_first()[j]) by {
            assert(s.drop_first()[j] == s[j + 1]);
        }
        lemma_leading_white(s.drop_first(), k - 1);
    }
}

pub fn trim(s: &str) -> (res: &str)
    ensures
        res@ == trimmed(s@),
{
    let v = chars_of(s);
    let mut from: usize = 0;
    while from < v.len() && is_white_space(v[from])
        invariant
            v@ == s@,
            from <= v.len(),
            forall|j: int| 0 <= j < from ==> white_space(#[trigger] s@[j]),
        decreases v.len() - from,
    {
        from += 1;
    }
    proof {
        lemma_leading_white(s@, from as int);
    }
    let mut to: usize = v.len();
    assert(s@.subrange(from as int, to as int) =~= s@.skip(from as int));
    while to > from && is_white_space(v[to - 1])
        invariant
            v@ == s@,
            from <= to <= v.len(),
            trimmed_end(s@.subrange(from as int, to as int)) == trimmed_end(s@.skip(from as int)),
        decreases to,
    {
        assert(s@.subrange(from as int, to as int).drop_last() =~= s@.subrange(
            from as int,
            to - 1,
        ));
        to = to - 1;
    }
    s.substring_char(from, to)
}

/// The lower-case form of a text, as `str::to_lowercase` gives it: the Unicode
/// property `Lowercase_Mapping` with its one context rule, applied throughout.
pub uninterp spec fn lowercase(s: Seq<char>) -> Seq<char>;

/// `str::to_lowercase` returns the lower-case form of its argument and depends
/// on nothing else.
pub assume_specification[ str::to_lowercase ](s: &str) -> (res: String)
    ensures
        res@ == lowercase(s@),
;

// ---- Prefixes, suffixes, numbers ----
/// What follows `prefix`, where the text begins with it.
pub open spec fn after_prefix(s: Seq<char>, prefix: Seq<char>) -> Option<Seq<char>> {
    if prefix.is_prefix_of(s) {
        Some(s.skip(prefix.len() as int))
    } else {
        None
    }
}

/// What stands before `suffix`, where the text ends with it.
pub open spec fn before_suffix(s: Seq<char>, suffix: Seq<char>) -> Option<Seq<char>> {
    if suffix.is_suffix_of(s) {
        Some(s.take(s.len() - suffix.len()))
    } else {
        None
    }
}

pub fn strip_prefix<'a>(s: &'a str, prefix: &str) -> (res: Option<&'a str>)
    ensures
        res is Some == after_prefix(s@, prefix@) is Some,
        res matches Some(t) ==> Some(t@) == after_prefix(s@, prefix@),
{
    let n = s.unicode_len();
    let k = prefix.unicode_len();
    if n < k {
        return None;
    }
    let head = s.substring_char(0, k);
    if text_eq(head, prefix) {
        let rest = s.substring_char(k, n);
        assert(prefix@.is_prefix_of(s@)) by {
            assert(s@.subrange(0, k as int) == prefix@);
        }
        assert(rest@ =~= s@.skip(k as int));
        Some(rest)
    } else {
        proof {
            if prefix@.is_prefix_of(s@) {
                assert(head@ =~= prefix@);
            }
        }
        None
    }
}

pub fn strip_suffix<'a>(s: &'a str, suffix: &str) -> (res: Option<&'a str>)
    ensures
        res is Some == before_suffix(s@, suffix@) is Some,
        res matches Some(t) ==> Some(t@) == before_suffix(s@, suffix@),
{
    let n = s.unicode_len();
    let k = suffix.unicode_len();
    if n < k {
        return None;
    }
    let tail = s.substring_char(n - k, n);
    if text_eq(tail, suffix) {
        let rest = s.substring_char(0, n - k);
        assert(suffix@.is_suffix_of(s@)) by {
            assert(s@.subrange(n - k, n as int) == suffix@);
        }
        assert(rest@ =~= s@.take(n - k));
        Some(rest)
    } else {
        proof {
            if suffix@.is_suffix_of(s@) {
                assert(tail@ =~= suffix@);
            }
        }
        None
    }
}

/// The decimal digit of a number below ten.
pub open spec fn digit(n: nat) -> char {
    ((n % 10) + 48) as char
}

/// A number in decimal, without leading zeros.
pub open spec fn decimal(n: nat) -> Seq<char>
    decreases n,
{
    if n < 10 {
        seq![digit(n)]
    } else {
        decimal(n / 10).push(digit(n))
    }
}

fn digit_text(d: u64) -> (res: &'static str)
    requires
        d < 10,
    ensures
        res@ == seq![digit(d as nat)],
{
    proof {
        reveal_strlit("0");
        reveal_strlit("1");
        reveal_strlit("2");
        reveal_strlit("3");
        reveal_strlit("4");
        reveal_strlit("5");
        reveal_strlit("6");
        reveal_strlit("7");
        reveal_strlit("8");
        reveal_strlit("9");
    }
    let res: &'static str = match d {
        0 => "0",
        1 => "1",
        2 => "2",
        3 => "3",
        4 => "4",
        5 => "5",
        6 => "6",
        7 => "7",
        8 => "8",
        _ => "9",
    };
    assert(res@ =~= seq![digit(d as nat)]);
    res
}

pub fn decimal_text(n: u64) -> (res: String)
    ensures
        res@ == decimal(n as nat),
    decreases n,
{
    if n < 10 {
        digit_text(n).to_owned()
    } else {
        let head = decimal_text(n / 10);
        let res = head.concat(digit_text(n % 10));
        assert(digit((n % 10) as nat) == digit(n as nat));
        assert(res@ =~= decimal((n / 10) as nat).push(digit(n as nat)));
        res
    }
}

// ---- Laws ----
/// Trimming takes away white space on either side, whatever it is.
pub proof fn trimming_ignores_white_space(s: Seq<char>, before: Seq<char>, after: Seq<char>)
    requires
        forall|i: int| 0 <= i < before.len() ==> white_space(#[trigger] before[i]),
        forall|i: int| 0 <= i < after.len() ==> white_space(#[trigger] after[i]),
    ensures
        trimmed(before + s + after) == trimmed(s),
    decreases before.len() + after.len(),
{
    let all = before + s + after;
    if before.len() > 0 {
        let rest = before.drop_first();
        assert(all.drop_first() =~= rest + s + after);
        assert(white_space(before[0]));
        assert(all[0] == before[0]);
        assert forall|i: int| 0 <= i < rest.len() implies white_space(#[trigger] rest[i]) by {
            assert(rest[i] == before[i + 1]);
        }
        trimming_ignores_white_space(s, rest, after);
        assert(leading_white(all) == 1 + leading_white(all.drop_first()));
        lemma_leading_bound(all.drop_first());
        assert(all.skip(leading_white(all) as int) =~= all.drop_first().skip(
            leading_white(all.drop_first()) as int,
        ));
    } else if after.len() > 0 {
        let rest = after.drop_last();
        assert(white_space(after[after.len() - 1]));
        assert forall|i: int| 0 <= i < rest.len() implies white_space(#[trigger] rest[i]) by {
            assert(rest[i] == after[i]);
        }
        trimming_ignores_white_space(s, before, rest);
        let shorter = before + s + rest;
        assert(all =~= shorter.push(after.last()));
        lemma_trim_push(shorter, after.last());
    } else {
        assert(all =~= s);
    }
}

proof fn lemma_leading_bound(s: Seq<char>)
    ensures
        leading_white(s) <= s.len(),
        forall|i: int| 0 <= i < leading_white(s) ==> white_space(#[trigger] s[i]),
        leading_white(s) < s.len() ==> !white_space(s[leading_white(s) as int]),
    decreases s.len(),
{
    if s.len() > 0 && white_space(s[0]) {
        lemma_leading_bound(s.drop_first());
        assert forall|i: int| 0 <= i < leading_white(s) implies white_space(#[trigger] s[i]) by {
            if i > 0 {
                assert(s.drop_first()[i - 1] == s[i]);
            }
        }
    }
}

proof fn lemma_trim_push(s: Seq<char>, c: char)
    requires
        white_space(c),
    ensures
        trimmed(s.push(c)) == trimmed(s),
{
    lemma_leading_bound(s);
    let k = leading_white(s) as int;
    let t = s.push(c);
    if k < s.len() {
        assert forall|j: int| 0 <= j < k implies white_space(#[trigger] t[j]) by {
            assert(t[j] == s[j]);
        }
        lemma_leading_white(t, k);
        assert(t.skip(k).drop_last() =~= s.skip(k));
        assert(t.skip(k).last() == c);
    } else {
        assert forall|j: int| 0 <= j < t.len() implies white_space(#[trigger] t[j]) by {
            if j < s.len() {
                assert(t[j] == s[j]);
            }
        }
        lemma_leading_white(t, t.len() as int);
        assert(t.skip(t.len() as int) =~= s.skip(k));
    }
}

/// What is left after trimming has no white space at either end, and it is a
/// part of the text.
pub proof fn trimmed_has_no_white_ends(s: Seq<char>)
    ensures
        trimmed(s).len() > 0 ==> !white_space(trimmed(s)[0]) && !white_space(trimmed(s).last()),
        forall|i: int| 0 <= i < trimmed(s).len() ==> #[trigger] trimmed(s)[i] == s[i + leading_white(
            s,
        )],
        trimmed(s).len() + leading_white(s) <= s.len(),
{
    lemma_leading_bound(s);
    let rest = s.skip(leading_white(s) as int);
    lemma_trimmed_end(rest);
}

proof fn lemma_trimmed_end(s: Seq<char>)
    ensures
        trimmed_end(s).is_prefix_of(s),
        trimmed_end(s).len() > 0 ==> !white_space(trimmed_end(s).last()),
    decreases s.len(),
{
    if s.len() > 0 && white_space(s.last()) {
        lemma_trimmed_end(s.drop_last());
        assert(trimmed_end(s).is_prefix_of(s)) by {
            let e = trimmed_end(s);
            assert(e =~= s.subrange(0, e.len() as int));
        }
    }
}

/// Folding makes the two cases of an ASCII letter alike and tells all other
/// characters apart.
pub proof fn folding_ignores_case_only(a: Seq<char>, b: Seq<char>)
    ensures
        ascii_fold(a) == ascii_fold(b) <==> a.len() == b.len() && forall|i: int|
            0 <= i < a.len() ==> {
                ||| #[trigger] a[i] == b[i]
                ||| 65 <= (a[i] as u32) <= 90 && b[i] as u32 == a[i] as u32 + 32
                ||| 65 <= (b[i] as u32) <= 90 && a[i] as u32 == b[i] as u32 + 32
            },
{
    if ascii_fold(a) == ascii_fold(b) {
        assert(a.len() == ascii_fold(a).len());
        assert(b.len() == ascii_fold(b).len());
        assert forall|i: int| 0 <= i < a.len() implies {
            ||| #[trigger] a[i] == b[i]
            ||| 65 <= (a[i] as u32) <= 90 && b[i] as u32 == a[i] as u32 + 32
            ||| 65 <= (b[i] as u32) <= 90 && a[i] as u32 == b[i] as u32 + 32
        } by {
            assert(ascii_fold(a)[i] == ascii_fold(b)[i]);
            assert(ascii_lower(a[i]) == ascii_lower(b[i]));
        }
    }
    if a.len() == b.len() && forall|i: int|
        0 <= i < a.len() ==> {
            ||| #[trigger] a[i] == b[i]
            ||| 65 <= (a[i] as u32) <= 90 && b[i] as u32 == a[i] as u32 + 32
            ||| 65 <= (b[i] as u32) <= 90 && a[i] as u32 == b[i] as u32 + 32
        } {
        assert forall|i: int| 0 <= i < a.len() implies ascii_fold(a)[i] == ascii_fold(b)[i] by {
            assert(ascii_lower(a[i]) == ascii_lower(b[i]));
        }
        assert(ascii_fold(a) =~= ascii_fold(b));
    }
}

/// Texts are ordered by the first character in which they differ; a text
/// comes before those that it begins.
pub proof fn order_goes_by_the_first_difference(a: Seq<char>, b: Seq<char>, i: int)
    requires
        0 <= i <= a.len(),
        i <= b.len(),
        forall|j: int| 0 <= j < i ==> #[trigger] a[j] == b[j],
    ensures
        i == a.len() ==> text_leq(a, b),
        i == b.len() && i < a.len() ==> !text_leq(a, b),
        i < a.len() && i < b.len() && a[i] != b[i] ==> (text_leq(a, b) <==> a[i] < b[i]),
    decreases i,
{
    if i > 0 {
        assert(a[0] == b[0]);
        assert forall|j: int| 0 <= j < i - 1 implies #[trigger] a.drop_first()[j]
            == b.drop_first()[j] by {
            assert(a[j + 1] == b[j + 1]);
        }
        order_goes_by_the_first_difference(a.drop_first(), b.drop_first(), i - 1);
    }
}

/// Decimal digits are positional: a number with one more digit is written
/// with that digit behind.
pub proof fn decimal_is_positional(n: nat, d: nat)
    requires
        d < 10,
    ensures
        decimal(d) == seq![(48 + d) as char],
        n > 0 ==> decimal(10 * n + d) == decimal(n).push((48 + d) as char),
{
}

/// The characters that count as white space, one by one.
pub proof fn white_space_one_by_one(c: char)
    ensures
        white_space(c) <==> seq![
            0x9u32, 0xa, 0xb, 0xc, 0xd, 0x20, 0x85, 0xa0, 0x1680, 0x2000, 0x2001, 0x2002, 0x2003,
            0x2004, 0x2005, 0x2006, 0x2007, 0x2008, 0x2009, 0x200a, 0x2028, 0x2029, 0x202f, 0x205f,
            0x3000,
        ].contains(c as u32),
{
    let list = seq![
        0x9u32, 0xa, 0xb, 0xc, 0xd, 0x20, 0x85, 0xa0, 0x1680, 0x2000, 0x2001, 0x2002, 0x2003,
        0x2004, 0x2005, 0x2006, 0x2007, 0x2008, 0x2009, 0x200a, 0x2028, 0x2029, 0x202f, 0x205f,
        0x3000,
    ];
    let n = c as u32;
    if white_space(c) {
        if 0x9 <= n <= 0xd {
            assert(list[n - 9] == n);
        } else if 0x2000 <= n <= 0x200a {
            assert(list[n - 0x2000 + 9] == n);
        } else {
            assert(list[5] == 0x20 && list[6] == 0x85 && list[7] == 0xa0 && list[8] == 0x1680);
            assert(list[20] == 0x2028 && list[21] == 0x2029 && list[22] == 0x202f && list[23]
                == 0x205f && list[24] == 0x3000);
        }
    }
}

/// A text without white space at its ends stays as it is.
pub proof fn trimming_keeps_the_rest(s: Seq<char>)
    requires
        s.len() > 0 ==> !white_space(s[0]) && !white_space(s.last()),
    ensures
        trimmed(s) == s,
{
    assert(leading_white(s) == 0);
    assert(s.skip(0) =~= s);
}

/// Trimming takes off the white space before and after, and no more.
pub proof fn trim_takes_off_white_space(
    s: &str,
    res: &str,
    before: Seq<char>,
    core: Seq<char>,
    after: Seq<char>,
)
    requires
        call_ensures(trim, (s,), res),
        s@ == before + core + after,
        forall|i: int| 0 <= i < before.len() ==> white_space(#[trigger] before[i]),
        forall|i: int| 0 <= i < after.len() ==> white_space(#[trigger] after[i]),
        core.len() > 0 ==> !white_space(core[0]) && !white_space(core.last()),
    ensures
        res@ == core,
{
    trimming_ignores_white_space(core, before, after);
    trimming_keeps_the_rest(core);
}

/// Texts are compared character by character: for equality, for equality up to
/// the case of ASCII letters, and for their order, which goes by the first
/// difference.
pub proof fn texts_are_compared_by_character(
    a: &str,
    b: &str,
    same: bool,
    folded: bool,
    le: bool,
    i: int,
)
    requires
        call_ensures(text_eq, (a, b), same),
        call_ensures(eq_ignore_ascii_case, (a, b), folded),
        call_ensures(text_le, (a, b), le),
    ensures
        same <==> a@.len() == b@.len() && forall|j: int|
            0 <= j < a@.len() ==> #[trigger] a@[j] == b@[j],
        folded <==> a@.len() == b@.len() && forall|j: int|
            0 <= j < a@.len() ==> {
                ||| #[trigger] a@[j] == b@[j]
                ||| 65 <= (a@[j] as u32) <= 90 && b@[j] as u32 == a@[j] as u32 + 32
                ||| 65 <= (b@[j] as u32) <= 90 && a@[j] as u32 == b@[j] as u32 + 32
            },
        0 <= i <= a@.len() && i <= b@.len() && (forall|j: int|
            0 <= j < i ==> #[trigger] a@[j] == b@[j]) ==> {
            &&& i == a@.len() ==> le
            &&& i == b@.len() && i < a@.len() ==> !le
            &&& i < a@.len() && i < b@.len() && a@[i] != b@[i] ==> (le <==> a@[i] < b@[i])
        },
{
    folding_ignores_case_only(a@, b@);
    if a@.len() == b@.len() && forall|j: int| 0 <= j < a@.len() ==> #[trigger] a@[j] == b@[j] {
        assert(a@ =~= b@);
    }
    if 0 <= i <= a@.len() && i <= b@.len() && (forall|j: int|
        0 <= j < i ==> #[trigger] a@[j] == b@[j]) {
        order_goes_by_the_first_difference(a@, b@, i);
    }
}

/// What is left of a text without a beginning or an end is what stands behind
/// or before it, and there is something left exactly if the text has it.
pub proof fn stripping_leaves_the_rest(
    s: &str,
    part: &str,
    behind: Option<&str>,
    before: Option<&str>,
)
    requires
        call_ensures(strip_prefix, (s, part), behind),
        call_ensures(strip_suffix, (s, part), before),
    ensures
        behind matches Some(t) ==> s@ == part@ + t@,
        behind is None ==> !part@.is_prefix_of(s@),
        before matches Some(t) ==> s@ == t@ + part@,
        before is None ==> !part@.is_suffix_of(s@),
{
    if part@.is_prefix_of(s@) {
        assert(s@.take(part@.len() as int) =~= part@);
    }
    if part@.is_suffix_of(s@) {
        assert(s@.skip(s@.len() - part@.len()) =~= part@);
    }
    if let Some(t) = behind {
        assert(s@ =~= part@ + t@);
    }
    if let Some(t) = before {
        assert(s@ =~= t@ + part@);
    }
}

/// A number is written digit by digit, the highest first.
pub proof fn numbers_are_written_in_digits(n: u64, head: u64, d: u64, res: String, rest: String)
    requires
        call_ensures(decimal_text, (n,), res),
        call_ensures(decimal_text, (head,), rest),
        d < 10,
    ensures
        n == d ==> res@ == seq![(48 + d) as char],
        head > 0 && n == 10 * head + d ==> res@ == rest@.push((48 + d) as char),
{
    decimal_is_positional(head as nat, d as nat);
}

/// Taking a text apart or copying an optional one changes nothing of it.
pub proof fn copies_are_equal(s: &str, chars: Vec<char>, o: Option<String>, copy: Option<String>)
    requires
        call_ensures(chars_of, (s,), chars),
        call_ensures(clone_opt, (&o,), copy),
    ensures
        chars@ == s@,
        copy is Some <==> o is Some,
        copy matches Some(c) ==> c@ == o->0@,
{
}

} // verus!
