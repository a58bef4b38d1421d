//! Operations on text, stated over sequences of characters.
use vstd::prelude::*;
use vstd::string::*;

verus! {

/// The characters with the Unicode property `White_Space`.
pub open spec fn white_space(c: char) -> bool {
    ||| '\u{9}' <= c <= '\u{d}'
    ||| c == '\u{20}'
    ||| c == '\u{85}'
    ||| c == '\u{a0}'
    ||| c == '\u{1680}'
    ||| '\u{2000}' <= c <= '\u{200a}'
    ||| c == '\u{2028}'
    ||| c == '\u{2029}'
    ||| c == '\u{202f}'
    ||| c == '\u{205f}'
    ||| c == '\u{3000}'
}

/// `s` without the white space at its two ends.
pub open spec fn trimmed(s: Seq<char>) -> Seq<char>
    decreases s.len(),
{
    if s.len() == 0 {
        s
    } else if white_space(s.first()) {
        trimmed(s.drop_first())
    } else if white_space(s.last()) {
        trimmed(s.drop_last())
    } else {
        s
    }
}

/// `part` stands in `s` at position `at`.
pub open spec fn occurs_at(s: Seq<char>, part: Seq<char>, at: int) -> bool {
    &&& 0 <= at <= s.len() - part.len()
    &&& s.subrange(at, at + part.len()) == part
}

/// `part` stands somewhere in `s`.
pub open spec fn has_part(s: Seq<char>, part: Seq<char>) -> bool {
    exists|at: int| occurs_at(s, part, at)
}

/// `s` ends with `suffix`.
pub open spec fn has_suffix(s: Seq<char>, suffix: Seq<char>) -> bool {
    s.len() >= suffix.len() && s.skip(s.len() - suffix.len()) == suffix
}

/// The position of the first `mark` in `s`, or the length of `s`.
pub open spec fn cut(s: Seq<char>, mark: char) -> nat
    decreases s.len(),
{
    if s.len() == 0 || s.first() == mark {
        0
    } else {
        1 + cut(s.drop_first(), mark)
    }
}

/// The pieces of `s` between the occurrences of `mark`.
pub open spec fn pieces(s: Seq<char>, mark: char) -> Seq<Seq<char>>
    decreases s.len(),
{
    let at = cut(s, mark);
    if at >= s.len() {
        seq![s]
    } else {
        seq![s.take(at as int)] + pieces(s.skip(at as int + 1), mark)
    }
}

/// `words` one after another, with `gap` between neighbours.
pub open spec fn joined(words: Seq<Seq<char>>, gap: Seq<char>) -> Seq<char>
    decreases words.len(),
{
    if words.len() == 0 {
        seq![]
    } else if words.len() == 1 {
        words[0]
    } else {
        joined(words.drop_last(), gap) + gap + words.last()
    }
}

/// `a` stands before `b` in the dictionary order of code points, or is `b`.
pub open spec fn at_most(a: Seq<char>, b: Seq<char>) -> bool
    decreases a.len(),
{
    ||| a.len() == 0
    ||| {
        &&& b.len() > 0
        &&& a.first() <= b.first()
        &&& a.first() == b.first() ==> at_most(a.drop_first(), b.drop_first())
    }
}

/// The decimal digit of `d`, for `d < 10`.
pub open spec fn digit(d: nat) -> char {
    (('0' as nat) + d) as char
}

/// `n` in decimal, without leading zeros.
pub open spec fn decimal(n: nat) -> Seq<char>
    decreases n,
{
    if n < 10 {
        seq![digit(n)]
    } else {
        decimal(n / 10).push(digit(n % 10))
    }
}

/// `n` in decimal, with a minus sign where it is negative.
pub open spec fn signed_decimal(n: int) -> Seq<char> {
    if n < 0 {
        seq!['-'] + decimal((-n) as nat)
    } else {
        decimal(n as nat)
    }
}

/// The characters of `s` are decimal digits.
pub open spec fn all_digits(s: Seq<char>) -> bool {
    forall|i: int| 0 <= i < s.len() ==> '0' <= #[trigger] s[i] <= '9'
}

/// The number that the digits of `s` stand for.
pub open spec fn digits_value(s: Seq<char>) -> nat
    decreases s.len(),
{
    if s.len() == 0 {
        0
    } else {
        (digits_value(s.drop_last()) * 10 + (s.last() as int - '0' as int)) as nat
    }
}

/// `s` without its leading sign, where it has one.
pub open spec fn unsigned_part(s: Seq<char>) -> Seq<char> {
    if s.len() > 0 && (s.first() == '+' || s.first() == '-') {
        s.drop_first()
    } else {
        s
    }
}

/// The number that `s` stands for: an optional sign, then digits and nothing
/// else, within the range of `i32`.
pub open spec fn i32_value(s: Seq<char>) -> Option<i32> {
    let body = unsigned_part(s);
    let negative = s.len() > 0 && s.first() == '-';
    let value = if negative {
        -digits_value(body)
    } else {
        digits_value(body) as int
    };
    if body.len() > 0 && all_digits(body) && i32::MIN <= value <= i32::MAX {
        Some(value as i32)
    } else {
        None
    }
}

/// What `str::to_lowercase` makes of a text.
pub uninterp spec fn lowercase(s: Seq<char>) -> Seq<char>;

/// Calls `str::to_lowercase` of the standard library, which gives the text in
/// lower case as Unicode defines it. The contract claims that the result
/// depends on the text alone, and names it.
#[verifier::external_body]
pub(crate) fn to_lowercase(s: &str) -> (r: String)
    ensures
        r@ == lowercase(s@),
{
    s.to_lowercase()
}

/// The characters of `s`.
pub fn chars_of(s: &str) -> (r: Vec<char>)
    ensures
        r@ == s@,
{
    let mut out: Vec<char> = Vec::new();
    for c in it: s.chars()
        invariant
            out@ == it.seq().take(it.index()),
            it.seq() == s@,
    {
        out.push(c);
    }
    out
}

/// Whether `a` and `b` hold the same characters.
pub fn same(a: &str, b: &str) -> (r: bool)
    ensures
        r == (a@ == b@),
{
    let left = a.as_bytes();
    let right = b.as_bytes();
    proof {
        vstd::utf8::encode_utf8_decode_utf8(a@);
        vstd::utf8::encode_utf8_decode_utf8(b@);
    }
    if left.len() != right.len() {
        return false;
    }
    let mut i: usize = 0;
    while i < left.len()
        invariant
            left@ == a.spec_bytes(),
            right@ == b.spec_bytes(),
            left@.len() == right@.len(),
            i <= left@.len(),
            forall|k: int| 0 <= k < i ==> left@[k] == right@[k],
        decreases left@.len() - i,
    {
        if left[i] != right[i] {
            return false;
        }
        i = i + 1;
    }
    assert(left@ =~= right@);
    true
}

/// Whether `a` comes before `b` in the order of code points, or is `b`.
pub fn le(a: &str, b: &str) -> (r: bool)
    ensures
        r == at_most(a@, b@),
{
    let left = chars_of(a);
    let right = chars_of(b);
    let mut i: usize = 0;
    assert(a@.skip(0) =~= a@);
    assert(b@.skip(0) =~= b@);
    while i < left.len() && i < right.len()
        invariant
            left@ == a@,
            right@ == b@,
            i <= left@.len(),
            i <= right@.len(),
            at_most(a@, b@) == at_most(a@.skip(i as int), b@.skip(i as int)),
        decreases left@.len() - i,
    {
        if left[i] < right[i] {
            return true;
        }
        if right[i] < left[i] {
            return false;
        }
        assert(a@.skip(i as int).drop_first() =~= a@.skip(i + 1));
        assert(b@.skip(i as int).drop_first() =~= b@.skip(i + 1));
        i = i + 1;
    }
    i >= left.len()
}

/// Whether `c` is white space.
pub fn is_white_space(c: char) -> (r: bool)
    ensures
        r == white_space(c),
{
    ('\u{9}' <= c && c <= '\u{d}') || c == '\u{20}' || c == '\u{85}' || c == '\u{a0}' || c
        == '\u{1680}' || ('\u{2000}' <= c && c <= '\u{200a}') || c == '\u{2028}' || c == '\u{2029}'
        || c == '\u{202f}' || c == '\u{205f}' || c == '\u{3000}'
}

/// `s` without the white space at its two ends.
pub fn trim(s: &str) -> (r: &str)
    ensures
        r@ == trimmed(s@),
{
    let chars = chars_of(s);
    let mut from: usize = 0;
    let mut to: usize = chars.len();
    assert(s@.subrange(0, s@.len() as int) =~= s@);
    while from < to && is_white_space(chars[from])
        invariant
            chars@ == s@,
            from <= to == s@.len(),
            trimmed(s@) == trimmed(s@.subrange(from as int, to as int)),
        decreases to - from,
    {
        assert(s@.subrange(from as int, to as int).drop_first() =~= s@.subrange(
            from + 1,
            to as int,
        ));
        from = from + 1;
    }
    while from < to && is_white_space(chars[to - 1])
        invariant
            chars@ == s@,
            from <= to <= s@.len(),
            from < to ==> !white_space(s@[from as int]),
            trimmed(s@) == trimmed(s@.subrange(from as int, to as int)),
        decreases to - from,
    {
        assert(s@.subrange(from as int, to as int).drop_last() =~= s@.subrange(
            from as int,
            to - 1,
        ));
        to = to - 1;
    }
    s.substring_char(from, to)
}

/// Whether `part` stands somewhere in `s`.
pub fn contains(s: &str, part: &str) -> (r: bool)
    ensures
        r == has_part(s@, part@),
{
    let all = chars_of(s);
    let wanted = chars_of(part);
    if all.len() < wanted.len() {
        return false;
    }
    let last: usize = all.len() - wanted.len();
    let mut at: usize = 0;
    loop
        invariant
            all@ == s@,
            wanted@ == part@,
            last == s@.len() - part@.len(),
            at <= last,
            forall|k: int| 0 <= k < at ==> !occurs_at(s@, part@, k),
        decreases last - at,
    {
        if stands_at(&all, &wanted, at) {
            assert(occurs_at(s@, part@, at as int));
            return true;
        }
        if at == last {
            return false;
        }
        at = at + 1;
    }
}

/// Whether `wanted` stands in `all` at position `at`.
fn stands_at(all: &Vec<char>, wanted: &Vec<char>, at: usize) -> (r: bool)
    requires
        at + wanted@.len() <= all@.len(),
    ensures
        r == occurs_at(all@, wanted@, at as int),
{
    let mut i: usize = 0;
    while i < wanted.len()
        invariant
            at + wanted.len() <= all.len(),
            i <= wanted@.len(),
            forall|k: int| 0 <= k < i ==> all@[at + k] == wanted@[k],
        decreases wanted@.len() - i,
    {
        if all[at + i] != wanted[i] {
            assert(all@.subrange(at as int, at + wanted@.len())[i as int] != wanted@[i as int]);
            return false;
        }
        i = i + 1;
    }
    assert(all@.subrange(at as int, at + wanted@.len()) =~= wanted@);
    true
}

/// Whether `s` ends with `suffix`.
pub fn ends_with(s: &str, suffix: &str) -> (r: bool)
    ensures
        r == has_suffix(s@, suffix@),
{
    let all = chars_of(s);
    let wanted = chars_of(suffix);
    if all.len() < wanted.len() {
        return false;
    }
    let at: usize = all.len() - wanted.len();
    assert(s@.skip(at as int) =~= s@.subrange(at as int, at + suffix@.len()));
    stands_at(&all, &wanted, at)
}

/// The position of the first `mark` at or after `from`, or the length.
pub fn find_mark(chars: &Vec<char>, mark: char, from: usize) -> (r: usize)
    requires
        from <= chars@.len(),
    ensures
        from <= r <= chars@.len(),
        r == from + cut(chars@.skip(from as int), mark),
{
    let mut at: usize = from;
    while at < chars.len() && chars[at] != mark
        invariant
            from <= at <= chars@.len(),
            from + cut(chars@.skip(from as int), mark) == at + cut(chars@.skip(at as int), mark),
        decreases chars@.len() - at,
    {
        assert(chars@.skip(at as int).drop_first() =~= chars@.skip(at + 1));
        at = at + 1;
    }
    at
}

/// The number that `s` stands for, as in [`i32_value`].
pub fn parse_i32(s: &str) -> (r: Option<i32>)
    ensures
        r == i32_value(s@),
{
    let chars = chars_of(s);
    let signed: bool = chars.len() > 0 && (chars[0] == '+' || chars[0] == '-');
    let negative: bool = chars.len() > 0 && chars[0] == '-';
    let start: usize = if signed {
        1
    } else {
        0
    };
    let ghost body = unsigned_part(s@);
    assert(body =~= s@.skip(start as int));
    if start == chars.len() {
        return None;
    }
    let mut value: i64 = 0;
    let mut i: usize = start;
    while i < chars.len()
        invariant
            chars@ == s@,
            body == s@.skip(start as int),
            start <= i <= s@.len(),
            start < s@.len(),
            body == unsigned_part(s@),
            negative == (s@.len() > 0 && s@.first() == '-'),
            0 <= value <= 0x8000_0000,
            value == digits_value(body.take(i - start)),
            all_digits(body.take(i - start)),
        decreases s@.len() - i,
    {
        let c = chars[i];
        assert(c == body[i - start]);
        if c < '0' || '9' < c {
            assert(!all_digits(body));
            return None;
        }
        let ghost next = body.take(i - start + 1);
        assert(next.drop_last() =~= body.take(i - start));
        assert(next.last() == c);
        value = value * 10 + (c as i64 - '0' as i64);
        assert(value == digits_value(next));
        if value > 0x8000_0000 {
            proof {
                if all_digits(body) {
                    lemma_digits_value_grows(body, i - start + 1);
                }
            }
            return None;
        }
        i = i + 1;
    }
    assert(body.take(body.len() as int) =~= body);
    if negative {
        Some((-value) as i32)
    } else if value > 0x7fff_ffff {
        None
    } else {
        Some(value as i32)
    }
}

/// A number is at least the number that its leading digits stand for.
proof fn lemma_digits_value_grows(s: Seq<char>, n: int)
    requires
        0 <= n <= s.len(),
        all_digits(s),
    ensures
        digits_value(s.take(n)) <= digits_value(s),
    decreases s.len(),
{
    if n == s.len() {
        assert(s.take(n) =~= s);
    } else {
        assert(s.drop_last().take(n) =~= s.take(n));
        assert('0' <= s[s.len() - 1]);
        lemma_digits_value_grows(s.drop_last(), n);
    }
}

/// The decimal digit of `d` as text.
fn digit_text(d: u32) -> (r: &'static str)
    requires
        d < 10,
    ensures
        r@ == seq![digit(d as nat)],
{
    proof {
        reveal_strlit("0");
        reveal_strlit("1");
        reveal_strlit("2");
        reveal_strlit("3");
        reveal_strlit("4");
        reveal_strlit("5");
        reveal_strlit("6");
        reveal_strlit("7");
        reveal_strlit("8");
        reveal_strlit("9");
    }
    let r: &'static str = if d == 0 {
        "0"
    } else if d == 1 {
        "1"
    } else if d == 2 {
        "2"
    } else if d == 3 {
        "3"
    } else if d == 4 {
        "4"
    } else if d == 5 {
        "5"
    } else if d == 6 {
        "6"
    } else if d == 7 {
        "7"
    } else if d == 8 {
        "8"
    } else {
        "9"
    };
    assert(r@ =~= seq![digit(d as nat)]);
    r
}

/// Writes `n` in decimal behind `out`.
pub fn push_decimal(out: &mut String, n: u32)
    ensures
        final(out)@ == old(out)@ + decimal(n as nat),
    decreases n,
{
    if n >= 10 {
        push_decimal(out, n / 10);
    }
    out.append(digit_text(n % 10));
}

/// Writes `n` in decimal behind `out`, with a minus sign where it is negative.
pub fn push_signed_decimal(out: &mut String, n: i32)
    ensures
        final(out)@ == old(out)@ + signed_decimal(n as int),
{
    if n < 0 {
        proof {
            reveal_strlit("-");
        }
        assert("-"@ =~= seq!['-']);
        out.append("-");
        push_decimal(out, (-(n as i64)) as u32);
    } else {
        push_decimal(out, n as u32);
    }
}

/// `words` one after another, with `gap` between neighbours.
pub fn join(words: &Vec<String>, gap: &str) -> (r: String)
    ensures
        r@ == joined(words.deep_view(), gap@),
{
    let mut out = String::new();
    let ghost all = words.deep_view();
    for i in 0..words.len()
        invariant
            all == words.deep_view(),
            out@ == joined(all.take(i as int), gap@),
    {
        assert(all.take(i + 1).drop_last() =~= all.take(i as int));
        if i > 0 {
            out.append(gap);
        }
        out.append(words[i].as_str());
        assert(out@ =~= joined(all.take(i + 1), gap@));
    }
    assert(all.take(words@.len() as int) =~= all);
    out
}

/// The path of `name` below `dir`, for a relative `name`: a slash is put
/// between the two unless `dir` is empty or ends with one.
pub open spec fn below(dir: Seq<char>, name: Seq<char>) -> Seq<char> {
    if dir.len() == 0 || dir.last() == '/' {
        dir + name
    } else {
        dir.push('/') + name
    }
}

/// The path of `name` below `dir`, as in [`below`].
pub fn join_path(dir: &str, name: &str) -> (r: String)
    ensures
        r@ == below(dir@, name@),
{
    proof {
        reveal_strlit("/");
    }
    let mut out = dir.to_owned();
    if !dir.is_empty() && !ends_with(dir, "/") {
        out.append("/");
    }
    assert("/"@ =~= seq!['/']);
    assert(dir@.len() > 0 ==> (has_suffix(dir@, "/"@) <==> dir@.last() == '/')) by {
        if dir@.len() > 0 {
            let tail = dir@.skip(dir@.len() - 1);
            assert(tail =~= seq![dir@.last()]);
            if dir@.last() != '/' {
                assert(tail[0] != "/"@[0]);
            }
        }
    }
    out.append(name);
    assert(out@ =~= below(dir@, name@));
    out
}

/// `s` is at most itself.
pub proof fn lemma_at_most_reflexive(s: Seq<char>)
    ensures
        at_most(s, s),
    decreases s.len(),
{
    if s.len() > 0 {
        lemma_at_most_reflexive(s.drop_first());
    }
}

/// Of two texts one is at most the other.
pub proof fn lemma_at_most_total(a: Seq<char>, b: Seq<char>)
    ensures
        at_most(a, b) || at_most(b, a),
    decreases a.len(),
{
    if a.len() > 0 && b.len() > 0 {
        lemma_at_most_total(a.drop_first(), b.drop_first());
    }
}

/// The order of texts is transitive.
pub proof fn lemma_at_most_transitive(a: Seq<char>, b: Seq<char>, c: Seq<char>)
    requires
        at_most(a, b),
        at_most(b, c),
    ensures
        at_most(a, c),
    decreases a.len(),
{
    if a.len() > 0 && a.first() == c.first() {
        lemma_at_most_transitive(a.drop_first(), b.drop_first(), c.drop_first());
    }
}

/// Two texts that are at most each other are the same.
pub proof fn lemma_at_most_antisymmetric(a: Seq<char>, b: Seq<char>)
    requires
        at_most(a, b),
        at_most(b, a),
    ensures
        a == b,
    decreases a.len(),
{
    if a.len() > 0 && b.len() > 0 {
        lemma_at_most_antisymmetric(a.drop_first(), b.drop_first());
        assert(a =~= seq![a.first()] + a.drop_first());
        assert(b =~= seq![b.first()] + b.drop_first());
    } else {
        assert(a =~= b);
    }
}

/// What [`decimal`] writes is made of digits and stands for the number.
pub proof fn lemma_decimal_value(n: nat)
    ensures
        decimal(n).len() > 0,
        all_digits(decimal(n)),
        digits_value(decimal(n)) == n,
    decreases n,
{
    if n < 10 {
        assert(decimal(n).drop_last() =~= Seq::<char>::empty());
        assert(digits_value(Seq::<char>::empty()) == 0);
    } else {
        lemma_decimal_value(n / 10);
        assert(decimal(n).drop_last() =~= decimal(n / 10));
    }
}

/// Trimming takes white space off the two ends, all of it, and nothing else:
/// the text from `r.0` to `r.1` remains.
pub proof fn law_trimming_takes_white_space_off(s: Seq<char>) -> (r: (int, int))
    ensures
        0 <= r.0 <= r.1 <= s.len(),
        trimmed(s) == s.subrange(r.0, r.1),
        forall|k: int| 0 <= k < r.0 ==> white_space(#[trigger] s[k]),
        forall|k: int| r.1 <= k < s.len() ==> white_space(#[trigger] s[k]),
        r.0 < r.1 ==> !white_space(s[r.0]) && !white_space(s[r.1 - 1]),
    decreases s.len(),
{
    if s.len() == 0 {
        assert(s.subrange(0, 0) =~= s);
        (0, 0)
    } else if white_space(s.first()) {
        let rest = s.drop_first();
        let (from, to) = law_trimming_takes_white_space_off(rest);
        lemma_trimmed_more(s, rest, 1, from, to);
        (from + 1, to + 1)
    } else if white_space(s.last()) {
        let rest = s.drop_last();
        let (from, to) = law_trimming_takes_white_space_off(rest);
        lemma_trimmed_more(s, rest, 0, from, to);
        (from, to)
    } else {
        assert(s.subrange(0, s.len() as int) =~= s);
        (0, s.len() as int)
    }
}

/// The ends of a text, where those of the text without its first or without
/// its last character are known.
#[verifier::spinoff_prover]
#[verifier::rlimit(50)]
proof fn lemma_trimmed_more(s: Seq<char>, rest: Seq<char>, shift: int, from: int, to: int)
    requires
        s.len() == rest.len() + 1,
        shift == 0 || shift == 1,
        rest == s.subrange(shift, shift + rest.len()),
        shift == 1 ==> white_space(s[0]),
        shift == 0 ==> white_space(s[s.len() - 1]),
        0 <= from <= to <= rest.len(),
        forall|k: int| 0 <= k < from ==> white_space(#[trigger] rest[k]),
        forall|k: int| to <= k < rest.len() ==> white_space(#[trigger] rest[k]),
        from < to ==> !white_space(rest[from]) && !white_space(rest[to - 1]),
    ensures
        s.subrange(from + shift, to + shift) == rest.subrange(from, to),
        forall|k: int| 0 <= k < from + shift ==> white_space(#[trigger] s[k]),
        forall|k: int| to + shift <= k < s.len() ==> white_space(#[trigger] s[k]),
        from < to ==> !white_space(s[from + shift]) && !white_space(s[to + shift - 1]),
{
    assert(s.subrange(from + shift, to + shift) =~= rest.subrange(from, to));
    assert forall|k: int| 0 <= k < from + shift implies white_space(#[trigger] s[k]) by {
        if k >= shift {
            assert(white_space(rest[k - shift]));
        }
    }
    assert forall|k: int| to + shift <= k < s.len() implies white_space(#[trigger] s[k]) by {
        if k - shift < rest.len() {
            assert(white_space(rest[k - shift]));
        }
    }
}

/// Nothing remains of a text if and only if it is all white space.
pub proof fn law_white_space_trims_to_nothing(s: Seq<char>)
    ensures
        trimmed(s).len() == 0 <==> forall|k: int|
            0 <= k < s.len() ==> white_space(#[trigger] s[k]),
{
    let (from, to) = law_trimming_takes_white_space_off(s);
    if from < to {
        assert(!white_space(s[from]));
    }
}

/// A text that stands between two others is found there.
pub proof fn law_part_is_found(before: Seq<char>, part: Seq<char>, behind: Seq<char>)
    ensures
        has_part(before + part + behind, part),
{
    let s = before + part + behind;
    assert(s.subrange(before.len() as int, (before.len() + part.len()) as int) =~= part);
    assert(occurs_at(s, part, before.len() as int));
}

/// A part that is found stands between two others, which are returned.
pub proof fn law_found_part_is_there(s: Seq<char>, part: Seq<char>) -> (r: (Seq<char>, Seq<char>))
    requires
        has_part(s, part),
    ensures
        s == r.0 + part + r.1,
{
    let at = choose|at: int| occurs_at(s, part, at);
    let r = (s.take(at), s.skip(at + part.len()));
    assert(r.0 + s.subrange(at, at + part.len()) + r.1 =~= s);
    r
}

/// The suffixes of a text are what stands behind some beginning of it: such
/// an end is a suffix, and a suffix leaves the beginning that is returned.
pub proof fn law_suffix_is_the_end(
    before: Seq<char>,
    end: Seq<char>,
    s: Seq<char>,
) -> (r: Seq<char>)
    ensures
        has_suffix(before + end, end),
        has_suffix(s, end) ==> s == r + end,
{
    assert((before + end).skip(before.len() as int) =~= end);
    let r = s.take(s.len() - end.len());
    if has_suffix(s, end) {
        assert(r + s.skip(s.len() - end.len()) =~= s);
    }
    r
}

/// The cut lies at the first mark, or at the end where there is none.
pub proof fn law_cut_is_at_the_first_mark(s: Seq<char>, mark: char)
    ensures
        cut(s, mark) <= s.len(),
        cut(s, mark) < s.len() ==> s[cut(s, mark) as int] == mark,
        forall|k: int| 0 <= k < cut(s, mark) ==> #[trigger] s[k] != mark,
    decreases s.len(),
{
    if s.len() > 0 && s.first() != mark {
        let rest = s.drop_first();
        law_cut_is_at_the_first_mark(rest, mark);
        assert forall|k: int| 0 <= k < cut(s, mark) implies #[trigger] s[k] != mark by {
            if k > 0 {
                assert(rest[k - 1] != mark);
            }
        }
    }
}

/// The pieces of a text hold no mark, and with the marks between them they
/// make up the text.
pub proof fn law_pieces_make_up_the_text(s: Seq<char>, mark: char)
    ensures
        pieces(s, mark).len() > 0,
        joined(pieces(s, mark), seq![mark]) == s,
        forall|k: int, i: int|
            0 <= k < pieces(s, mark).len() && 0 <= i < pieces(s, mark)[k].len() ==> #[trigger] pieces(
                s,
                mark,
            )[k][i] != mark,
    decreases s.len(),
{
    let at = cut(s, mark) as int;
    law_cut_is_at_the_first_mark(s, mark);
    if at < s.len() {
        let rest = pieces(s.skip(at + 1), mark);
        law_pieces_make_up_the_text(s.skip(at + 1), mark);
        law_joined_texts_follow_each_other(seq![s.take(at)], rest, seq![mark]);
        assert(s.take(at) + seq![mark] + s.skip(at + 1) =~= s);
        assert forall|k: int, i: int|
            0 <= k < pieces(s, mark).len() && 0 <= i < pieces(s, mark)[k].len() implies #[trigger] pieces(
            s,
            mark,
        )[k][i] != mark by {
            if k == 0 {
                assert(s[i] != mark);
            } else {
                assert(pieces(s, mark)[k] == rest[k - 1]);
                assert(rest[k - 1][i] != mark);
            }
        }
    }
}

/// Joining gives the word itself for one word, and for two lists of words the
/// one joined list, the gap, and the other.
pub proof fn law_joined_texts_follow_each_other(
    a: Seq<Seq<char>>,
    b: Seq<Seq<char>>,
    gap: Seq<char>,
)
    ensures
        a.len() == 0 ==> joined(a, gap).len() == 0,
        a.len() == 1 ==> joined(a, gap) == a[0],
        a.len() > 0 && b.len() > 0 ==> joined(a + b, gap) == joined(a, gap) + gap + joined(b, gap),
    decreases b.len(),
{
    if a.len() > 0 && b.len() == 1 {
        assert((a + b).drop_last() =~= a);
        assert((a + b).last() == b[0]);
    } else if a.len() > 0 && b.len() > 1 {
        let front = b.drop_last();
        assert((a + b).drop_last() =~= a + front);
        assert((a + b).last() == b.last());
        law_joined_texts_follow_each_other(a, front, gap);
        assert(joined(a, gap) + gap + joined(front, gap) + gap + b.last() =~= joined(a, gap) + gap + (
        joined(front, gap) + gap + b.last()));
    }
}

/// Every word is a part of the joined text.
pub proof fn law_joined_text_holds_each_word(words: Seq<Seq<char>>, gap: Seq<char>, k: int)
    requires
        0 <= k < words.len(),
    ensures
        has_part(joined(words, gap), words[k]),
{
    let front = words.take(k);
    let back = words.skip(k + 1);
    let word = seq![words[k]];
    let none = Seq::<char>::empty();
    law_joined_texts_follow_each_other(word, back, gap);
    let tail = if back.len() > 0 {
        gap + joined(back, gap)
    } else {
        none
    };
    assert(joined(word + back, gap) =~= words[k] + tail) by {
        if back.len() == 0 {
            assert(word + back =~= word);
        }
    }
    assert(front + (word + back) =~= words);
    law_joined_texts_follow_each_other(front, word + back, gap);
    let head = if front.len() > 0 {
        joined(front, gap) + gap
    } else {
        none
    };
    assert(joined(words, gap) =~= head + words[k] + tail) by {
        if front.len() == 0 {
            assert(word + back =~= words);
        }
    }
    law_part_is_found(head, words[k], tail);
}

/// A part of a part is a part.
pub proof fn lemma_part_of_part(before: Seq<char>, s: Seq<char>, behind: Seq<char>, part: Seq<char>)
    requires
        has_part(s, part),
    ensures
        has_part(before + s + behind, part),
{
    let (a, b) = law_found_part_is_there(s, part);
    law_part_is_found(before + a, part, b + behind);
    assert((before + a) + part + (b + behind) =~= before + s + behind);
}

/// The order of texts is that of a dictionary: the first character in which
/// two texts differ decides, and a beginning comes before the whole.
pub proof fn law_order_is_that_of_a_dictionary(
    common: Seq<char>,
    a: Seq<char>,
    b: Seq<char>,
)
    ensures
        a.len() == 0 ==> at_most(common + a, common + b),
        a.len() > 0 && b.len() == 0 ==> !at_most(common + a, common + b),
        a.len() > 0 && b.len() > 0 && a[0] != b[0] ==> (at_most(common + a, common + b) <==> a[0]
            < b[0]),
    decreases common.len(),
{
    if common.len() == 0 {
        assert(common + a =~= a);
        assert(common + b =~= b);
    } else {
        let rest = common.drop_first();
        law_order_is_that_of_a_dictionary(rest, a, b);
        assert((common + a).drop_first() =~= rest + a);
        assert((common + b).drop_first() =~= rest + b);
    }
}

/// A number in decimal starts with no zero, unless it is zero.
pub proof fn law_decimal_has_no_leading_zero(n: nat)
    ensures
        n > 0 ==> decimal(n)[0] != '0',
        n == 0 ==> decimal(n) == seq!['0'],
    decreases n,
{
    if n >= 10 {
        law_decimal_has_no_leading_zero(n / 10);
        lemma_decimal_value(n / 10);
    }
}

/// Each further digit makes ten times the number, plus the digit.
pub proof fn law_digits_count_by_ten(s: Seq<char>, c: char)
    requires
        '0' <= c <= '9',
    ensures
        digits_value(Seq::<char>::empty()) == 0,
        digits_value(s.push(c)) == digits_value(s) * 10 + (c as int - '0' as int),
{
    assert(s.push(c).drop_last() =~= s);
}

/// A text is read as a number if and only if it is made of digits behind at
/// most one sign and the number is in range; then it is that number.
pub proof fn law_numbers_are_read(digits: Seq<char>)
    requires
        digits.len() > 0,
        all_digits(digits),
    ensures
        i32_value(digits) == (if digits_value(digits) <= 0x7fff_ffff {
            Some(digits_value(digits) as i32)
        } else {
            None
        }),
        i32_value(seq!['+'] + digits) == i32_value(digits),
        i32_value(seq!['-'] + digits) == (if digits_value(digits) <= 0x8000_0000 {
            Some((-digits_value(digits)) as i32)
        } else {
            None
        }),
{
    assert('0' <= digits[0] <= '9');
    assert((seq!['+'] + digits).drop_first() =~= digits);
    assert((seq!['-'] + digits).drop_first() =~= digits);
}

/// A text without digits, or with a character that is neither a digit nor a
/// sign in front, is no number.
pub proof fn law_other_texts_are_no_numbers(s: Seq<char>, k: int)
    requires
        s.len() == 0 || s == seq!['+'] || s == seq!['-'] || (0 <= k < s.len() && !('0' <= s[k] <= '9')
            && (k > 0 || (s[0] != '+' && s[0] != '-'))),
    ensures
        i32_value(s) is None,
{
    let body = unsigned_part(s);
    if s.len() > 0 && (s.first() == '+' || s.first() == '-') {
        if s.len() > 1 {
            assert(body[k - 1] == s[k]);
        }
    } else if s.len() > 0 {
        assert(body[k] == s[k]);
    }
}

/// A path below a directory is the two with one slash between them, and the
/// bare name where the directory is empty.
pub proof fn law_paths_below_a_directory(dir: Seq<char>, name: Seq<char>)
    ensures
        below(Seq::<char>::empty(), name) == name,
        dir.len() > 0 && dir.last() == '/' ==> below(dir, name) == dir + name,
        dir.len() > 0 && dir.last() != '/' ==> {
            &&& below(dir, name) == dir + seq!['/'] + name
            &&& below(dir + seq!['/'], name) == below(dir, name)
        },
{
    assert(below(Seq::<char>::empty(), name) =~= name);
    assert(dir.push('/') =~= dir + seq!['/']);
}

} // verus!
