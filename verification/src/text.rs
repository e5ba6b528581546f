//! Text as sequences of characters: searching, trimming, splitting and ordering.

use vstd::prelude::*;
use vstd::utf8::{encode_utf8, encode_utf8_decode_utf8};

verus! {

/// `String::push`: appends one character to the end of the string.
pub assume_specification[ String::push ](s: &mut String, c: char)
    ensures
        final(s)@ == old(s)@.push(c),
;

/// The texts that a sequence of strings holds, in order.
pub open spec fn texts(s: Seq<String>) -> Seq<Seq<char>> {
    s.map_values(|t: String| t@)
}

/// The text of an optional string slice.
pub open spec fn opt_text(s: Option<&str>) -> Option<Seq<char>> {
    match s {
        Some(t) => Some(t@),
        None => None,
    }
}

/// The text of an optional string.
pub open spec fn opt_string(s: Option<String>) -> Option<Seq<char>> {
    match s {
        Some(t) => Some(t@),
        None => None,
    }
}

/// Whether `pat` stands in `s` at position `i`.
pub open spec fn occurs_at(s: Seq<char>, pat: Seq<char>, i: int) -> bool {
    &&& 0 <= i
    &&& i + pat.len() <= s.len()
    &&& s.subrange(i, i + pat.len()) == pat
}

/// The first position at or after `from` at which `pat` stands in `s`.
pub open spec fn first_match(s: Seq<char>, pat: Seq<char>, from: int) -> Option<int>
    decreases s.len() + 1 - from,
{
    if from + pat.len() > s.len() || from > s.len() {
        None
    } else if occurs_at(s, pat, from) {
        Some(from)
    } else {
        first_match(s, pat, from + 1)
    }
}

/// Whether `s` begins with `prefix`.
pub open spec fn has_prefix(s: Seq<char>, prefix: Seq<char>) -> bool {
    occurs_at(s, prefix, 0)
}

/// `s` with each of the letters `a` to `z` replaced by its capital.
pub open spec fn uppercase(s: Seq<char>) -> Seq<char> {
    s.map_values(|c: char| upper_char(c))
}

/// The capital of a letter `a` to `z`; any other character itself.
pub open spec fn upper_char(c: char) -> char {
    if 'a' <= c && c <= 'z' {
        (c as u32 - 32) as char
    } else {
        c
    }
}

/// The characters with the Unicode property `White_Space`.
pub open spec fn is_space(c: char) -> bool {
    ||| '\u{9}' <= c && c <= '\u{d}'
    ||| c == ' '
    ||| c == '\u{85}'
    ||| c == '\u{a0}'
    ||| c == '\u{1680}'
    ||| '\u{2000}' <= c && c <= '\u{200a}'
    ||| c == '\u{2028}'
    ||| c == '\u{2029}'
    ||| c == '\u{202f}'
    ||| c == '\u{205f}'
    ||| c == '\u{3000}'
}

/// `s` without the white space at its beginning.
pub open spec fn trim_start(s: Seq<char>) -> Seq<char>
    decreases s.len(),
{
    if s.len() > 0 && is_space(s[0]) {
        trim_start(s.drop_first())
    } else {
        s
    }
}

/// `s` without the white space at its end.
pub open spec fn trim_end(s: Seq<char>) -> Seq<char>
    decreases s.len(),
{
    if s.len() > 0 && is_space(s.last()) {
        trim_end(s.drop_last())
    } else {
        s
    }
}

/// `s` without the white space at both ends.
pub open spec fn trimmed(s: Seq<char>) -> Seq<char> {
    trim_end(trim_start(s))
}

/// The first line of a text: what stands before the first line feed, without a
/// carriage return directly before that line feed. A text without a line feed is
/// one line, and an empty text has none.
pub open spec fn first_line_of(s: Seq<char>) -> Option<Seq<char>> {
    if s.len() == 0 {
        None
    } else {
        match first_match(s, seq!['\n'], 0) {
            None => Some(s),
            Some(i) => if i > 0 && s[i - 1] == '\r' {
                Some(s.take(i - 1))
            } else {
                Some(s.take(i))
            },
        }
    }
}

/// The texts one after another, with `sep` between each two.
pub open spec fn joined(parts: Seq<Seq<char>>, sep: Seq<char>) -> Seq<char>
    decreases parts.len(),
{
    if parts.len() == 0 {
        seq![]
    } else if parts.len() == 1 {
        parts[0]
    } else {
        joined(parts.drop_last(), sep) + sep + parts.last()
    }
}

/// Lexicographic order by code point.
pub open spec fn before(a: Seq<char>, b: Seq<char>) -> bool
    decreases a.len(),
{
    if b.len() == 0 {
        false
    } else if a.len() == 0 {
        true
    } else if a[0] == b[0] {
        before(a.drop_first(), b.drop_first())
    } else {
        a[0] < b[0]
    }
}

/// Each text stands before all that follow it.
pub open spec fn increasing(s: Seq<Seq<char>>) -> bool {
    forall|i: int, j: int| 0 <= i < j < s.len() ==> #[trigger] before(s[i], #[trigger] s[j])
}

/// `first_match` gives the least position of an occurrence, if there is one.
pub proof fn lemma_first_match(s: Seq<char>, pat: Seq<char>, from: int)
    requires
        0 <= from,
    ensures
        match first_match(s, pat, from) {
            Some(i) => {
                &&& from <= i
                &&& occurs_at(s, pat, i)
                &&& forall|j: int| from <= j < i ==> !occurs_at(s, pat, j)
            },
            None => forall|j: int| from <= j ==> !occurs_at(s, pat, j),
        },
    decreases s.len() + 1 - from,
{
    if from + pat.len() > s.len() || from > s.len() {
    } else if occurs_at(s, pat, from) {
    } else {
        lemma_first_match(s, pat, from + 1);
    }
}

/// The least position of an occurrence is what `first_match` gives.
pub proof fn lemma_first_match_is(s: Seq<char>, pat: Seq<char>, from: int, i: int)
    requires
        0 <= from <= i,
        occurs_at(s, pat, i),
        forall|j: int| from <= j < i ==> !occurs_at(s, pat, j),
    ensures
        first_match(s, pat, from) == Some(i),
{
    lemma_first_match(s, pat, from);
}

/// No text stands before itself.
pub proof fn lemma_before_irreflexive(a: Seq<char>)
    ensures
        !before(a, a),
    decreases a.len(),
{
    if a.len() > 0 {
        lemma_before_irreflexive(a.drop_first());
    }
}

/// The order is transitive.
pub proof fn lemma_before_transitive(a: Seq<char>, b: Seq<char>, c: Seq<char>)
    requires
        before(a, b),
        before(b, c),
    ensures
        before(a, c),
    decreases a.len(),
{
    if a.len() > 0 && a[0] == b[0] && b[0] == c[0] {
        lemma_before_transitive(a.drop_first(), b.drop_first(), c.drop_first());
    }
}

/// Of two different texts one stands before the other.
pub proof fn lemma_before_total(a: Seq<char>, b: Seq<char>)
    ensures
        before(a, b) || before(b, a) || a == b,
    decreases a.len(),
{
    if a.len() > 0 && b.len() > 0 && a[0] == b[0] {
        lemma_before_total(a.drop_first(), b.drop_first());
        if a.drop_first() == b.drop_first() {
            assert(a =~= seq![a[0]] + a.drop_first());
            assert(b =~= seq![b[0]] + b.drop_first());
        }
    } else if a.len() == 0 && b.len() == 0 {
        assert(a =~= b);
    }
}

/// A text that neither begins nor ends with white space is left as it is.
pub proof fn lemma_trimmed_fixed(s: Seq<char>)
    requires
        s.len() > 0 ==> !is_space(s[0]) && !is_space(s.last()),
    ensures
        trimmed(s) == s,
{
}

/// The text of an optional string.
pub fn as_text(s: &Option<String>) -> (r: Option<&str>)
    ensures
        opt_text(r) == opt_string(*s),
{
    match s {
        Some(text) => Some(text.as_str()),
        None => None,
    }
}

/// The characters of a string slice.
pub fn chars_of(s: &str) -> (v: Vec<char>)
    ensures
        v@ == s@,
{
    let mut v: Vec<char> = Vec::new();
    for c in it: s.chars()
        invariant
            it.seq() == s@,
            v@ == it.seq().take(it.index() as int),
    {
        v.push(c);
    }
    v
}

/// The string made of the characters at positions `from` to `to`.
pub fn string_of(v: &Vec<char>, from: usize, to: usize) -> (s: String)
    requires
        from <= to <= v.len(),
    ensures
        s@ == v@.subrange(from as int, to as int),
{
    let mut s = String::new();
    let mut i: usize = from;
    while i < to
        invariant
            from <= i <= to <= v.len(),
            s@ == v@.subrange(from as int, i as int),
        decreases to - i,
    {
        s.push(v[i]);
        assert(v@.subrange(from as int, i + 1) =~= v@.subrange(from as int, i as int).push(v[i as int]));
        i += 1;
    }
    s
}

/// Whether two string slices hold the same text.
pub fn same_text(a: &str, b: &str) -> (r: bool)
    ensures
        r == (a@ == b@),
{
    let x = a.as_bytes();
    let y = b.as_bytes();
    proof {
        encode_utf8_decode_utf8(a@);
        encode_utf8_decode_utf8(b@);
    }
    if x.len() != y.len() {
        return false;
    }
    let mut i: usize = 0;
    while i < x.len()
        invariant
            i <= x.len(),
            x.len() == y.len(),
            x@ == encode_utf8(a@),
            y@ == encode_utf8(b@),
            forall|j: int| 0 <= j < i ==> x@[j] == y@[j],
        decreases x.len() - i,
    {
        if x[i] != y[i] {
            return false;
        }
        i += 1;
    }
    assert(x@ =~= y@);
    true
}

/// Whether the characters of `pat` stand in `v` at position `i`.
pub fn matches_at(v: &Vec<char>, pat: &Vec<char>, i: usize) -> (r: bool)
    ensures
        r == occurs_at(v@, pat@, i as int),
{
    if i > v.len() || pat.len() > v.len() - i {
        return false;
    }
    let mut k: usize = 0;
    while k < pat.len()
        invariant
            k <= pat.len(),
            i + pat.len() <= v.len(),
            forall|j: int| 0 <= j < k ==> v@[i + j] == pat@[j],
        decreases pat.len() - k,
    {
        if v[i + k] != pat[k] {
            assert(v@.subrange(i as int, i + pat.len())[k as int] != pat@[k as int]);
            return false;
        }
        k += 1;
    }
    assert(v@.subrange(i as int, i + pat.len()) =~= pat@);
    true
}

/// The first position at or after `from` at which `pat` stands in `v`.
pub fn find(v: &Vec<char>, pat: &Vec<char>, from: usize) -> (r: Option<usize>)
    ensures
        match r {
            Some(i) => first_match(v@, pat@, from as int) == Some(i as int),
            None => first_match(v@, pat@, from as int) is None,
        },
{
    let mut i: usize = from;
    while i <= v.len() && pat.len() <= v.len() - i
        invariant
            from <= i,
            first_match(v@, pat@, from as int) == first_match(v@, pat@, i as int),
        decreases v.len() + 1 - i,
    {
        if matches_at(v, pat, i) {
            return Some(i);
        }
        if i == v.len() {
            assert(first_match(v@, pat@, i + 1) is None);
            return None;
        }
        i += 1;
    }
    None
}

/// Whether `s` begins with `prefix`.
pub fn starts_with(s: &str, prefix: &str) -> (r: bool)
    ensures
        r == has_prefix(s@, prefix@),
{
    matches_at(&chars_of(s), &chars_of(prefix), 0)
}

/// What follows `prefix` in a text that begins with it.
pub fn strip_prefix(s: &str, prefix: &str) -> (r: Option<String>)
    ensures
        match r {
            Some(t) => has_prefix(s@, prefix@) && t@ == s@.skip(prefix@.len() as int),
            None => !has_prefix(s@, prefix@),
        },
{
    let v = chars_of(s);
    let p = chars_of(prefix);
    if matches_at(&v, &p, 0) {
        let rest = string_of(&v, p.len(), v.len());
        assert(rest@ =~= s@.skip(prefix@.len() as int));
        Some(rest)
    } else {
        None
    }
}

/// The text with the letters `a` to `z` as capitals.
pub fn to_uppercase(s: &str) -> (r: String)
    ensures
        r@ == uppercase(s@),
{
    let v = chars_of(s);
    let mut r = String::new();
    let mut i: usize = 0;
    while i < v.len()
        invariant
            i <= v.len(),
            v@ == s@,
            r@ == uppercase(s@).take(i as int),
        decreases v.len() - i,
    {
        let c = v[i];
        let u: char = if 'a' <= c && c <= 'z' {
            (c as u8 - 32u8) as char
        } else {
            c
        };
        r.push(u);
        assert(uppercase(s@).take(i + 1) =~= uppercase(s@).take(i as int).push(upper_char(c)));
        i += 1;
    }
    assert(uppercase(s@).take(s@.len() as int) =~= uppercase(s@));
    r
}

/// Whether a character has the Unicode property `White_Space`.
pub fn is_whitespace(c: char) -> (r: bool)
    ensures
        r == is_space(c),
{
    ('\u{9}' <= c && c <= '\u{d}') || c == ' ' || c == '\u{85}' || c == '\u{a0}' || c == '\u{1680}'
        || ('\u{2000}' <= c && c <= '\u{200a}') || c == '\u{2028}' || c == '\u{2029}' || c
        == '\u{202f}' || c == '\u{205f}' || c == '\u{3000}'
}

/// The text without the white space at both ends.
pub fn trim(s: &str) -> (r: String)
    ensures
        r@ == trimmed(s@),
{
    let v = chars_of(s);
    let n: usize = v.len();
    let mut from: usize = 0;
    assert(v@.skip(0) =~= v@);
    while from < n && is_whitespace(v[from])
        invariant
            from <= n == v.len(),
            v@ == s@,
            trim_start(s@) == trim_start(v@.skip(from as int)),
        decreases n - from,
    {
        assert(v@.skip(from as int).drop_first() =~= v@.skip(from + 1));
        from += 1;
    }
    assert(trim_start(s@) == v@.skip(from as int));
    let mut to: usize = n;
    assert(v@.subrange(from as int, n as int) =~= v@.skip(from as int));
    while to > from && is_whitespace(v[to - 1])
        invariant
            from <= to <= n == v.len(),
            v@ == s@,
            trimmed(s@) == trim_end(v@.subrange(from as int, to as int)),
        decreases to,
    {
        assert(v@.subrange(from as int, to as int).drop_last() =~= v@.subrange(from as int, to - 1));
        to -= 1;
    }
    string_of(&v, from, to)
}

/// The first line of a text.
pub fn first_line(s: &str) -> (r: Option<String>)
    ensures
        opt_string(r) == first_line_of(s@),
{
    let v = chars_of(s);
    if v.len() == 0 {
        return None;
    }
    let newline: Vec<char> = vec!['\n'];
    assert(newline@ =~= seq!['\n']);
    match find(&v, &newline, 0) {
        None => {
            let line = string_of(&v, 0, v.len());
            assert(line@ =~= s@);
            Some(line)
        },
        Some(i) => {
            proof {
                lemma_first_match(v@, newline@, 0);
            }
            let end: usize = if i > 0 && v[i - 1] == '\r' {
                i - 1
            } else {
                i
            };
            let line = string_of(&v, 0, end);
            assert(line@ =~= s@.take(end as int));
            Some(line)
        },
    }
}

/// The texts one after another, with `sep` between each two.
pub fn join(parts: &Vec<String>, sep: &str) -> (r: String)
    ensures
        r@ == joined(texts(parts@), sep@),
{
    let mut r = String::new();
    let mut i: usize = 0;
    while i < parts.len()
        invariant
            i <= parts.len(),
            r@ == joined(texts(parts@).take(i as int), sep@),
        decreases parts.len() - i,
    {
        if i > 0 {
            r.append(sep);
        }
        r.append(parts[i].as_str());
        proof {
            let head = texts(parts@).take(i + 1);
            assert(head.drop_last() =~= texts(parts@).take(i as int));
            assert(head.last() == parts@[i as int]@);
            if i == 0 {
                assert(r@ =~= head[0]);
            }
        }
        i += 1;
    }
    assert(texts(parts@).take(parts.len() as int) =~= texts(parts@));
    r
}

/// Whether `a` stands before `b` in lexicographic order by code point.
pub fn text_before(a: &str, b: &str) -> (r: bool)
    ensures
        r == before(a@, b@),
{
    let x = chars_of(a);
    let y = chars_of(b);
    let mut i: usize = 0;
    assert(x@.skip(0) =~= x@);
    assert(y@.skip(0) =~= y@);
    while i < x.len() && i < y.len() && x[i] == y[i]
        invariant
            i <= x.len(),
            i <= y.len(),
            x@ == a@,
            y@ == b@,
            before(a@, b@) == before(x@.skip(i as int), y@.skip(i as int)),
        decreases x.len() - i,
    {
        assert(x@.skip(i as int).drop_first() =~= x@.skip(i + 1));
        assert(y@.skip(i as int).drop_first() =~= y@.skip(i + 1));
        i += 1;
    }
    if i == y.len() {
        false
    } else if i == x.len() {
        true
    } else {
        x[i] < y[i]
    }
}

/// The texts `a` and `b` as one.
pub fn concat2(a: &str, b: &str) -> (r: String)
    ensures
        r@ == a@ + b@,
{
    let mut r = a.to_owned();
    r.append(b);
    r
}

/// The texts `a`, `b` and `c` as one.
pub fn concat3(a: &str, b: &str, c: &str) -> (r: String)
    ensures
        r@ == a@ + b@ + c@,
{
    let mut r = a.to_owned();
    r.append(b);
    r.append(c);
    r
}

/// `texts` keeps every string, and in order.
pub proof fn law_texts(s: Seq<String>, i: int)
    ensures
        texts(s).len() == s.len(),
        0 <= i < s.len() ==> texts(s)[i] == s[i]@,
{
}

/// An optional text is there exactly when the string is, and is the whole string.
pub proof fn law_optional_texts(s: &str, t: String)
    ensures
        opt_text(Some(s)) == Some(s@),
        opt_text(None) is None,
        opt_string(Some(t)) == Some(t@),
        opt_string(None) is None,
{
}

/// A text occurs at a position exactly when the whole is something of that length, the text, and
/// something more.
pub proof fn law_occurrence(s: Seq<char>, pat: Seq<char>, i: int)
    ensures
        occurs_at(s, pat, i) <==> exists|a: Seq<char>, b: Seq<char>| #[trigger]
            (a + pat + b) == s && a.len() == i,
        has_prefix(s, pat) <==> exists|b: Seq<char>| #[trigger] (pat + b) == s,
{
    if occurs_at(s, pat, i) {
        let a = s.take(i);
        let b = s.skip(i + pat.len());
        assert(s =~= a + s.subrange(i, i + pat.len()) + b);
        assert((a + pat + b) == s && a.len() == i);
    }
    if exists|a: Seq<char>, b: Seq<char>| #[trigger] (a + pat + b) == s && a.len() == i {
        let (a, b) = choose|a: Seq<char>, b: Seq<char>| #[trigger]
            (a + pat + b) == s && a.len() == i;
        assert(s.subrange(i, i + pat.len()) =~= pat);
    }
    if has_prefix(s, pat) {
        assert(s =~= s.subrange(0, pat.len() as int) + s.skip(pat.len() as int));
        assert((pat + s.skip(pat.len() as int)) == s);
    }
    if exists|b: Seq<char>| #[trigger] (pat + b) == s {
        let b = choose|b: Seq<char>| #[trigger] (pat + b) == s;
        assert(s.subrange(0, pat.len() as int) =~= pat);
    }
}

/// A text is found exactly where it first stands: at the position that is given the characters
/// are those of the text, and at no earlier one from `from` on are they; if no position is given,
/// they are nowhere.
pub proof fn law_first_match(s: Seq<char>, pat: Seq<char>, from: int)
    requires
        0 <= from,
    ensures
        first_match(s, pat, from) matches Some(i) ==> {
            &&& from <= i <= s.len() - pat.len()
            &&& s.subrange(i, i + pat.len()) == pat
            &&& forall|j: int| from <= j < i ==> #[trigger] s.subrange(j, j + pat.len()) != pat
        },
        first_match(s, pat, from) is None ==> forall|j: int|
            from <= j <= s.len() - pat.len() ==> #[trigger] s.subrange(j, j + pat.len()) != pat,
{
    lemma_first_match(s, pat, from);
    match first_match(s, pat, from) {
        Some(i) => {
            assert forall|j: int| from <= j < i implies #[trigger] s.subrange(j, j + pat.len())
                != pat by {
                assert(!occurs_at(s, pat, j));
            }
        },
        None => {
            assert forall|j: int| from <= j <= s.len() - pat.len() implies #[trigger] s.subrange(
                j,
                j + pat.len(),
            ) != pat by {
                assert(!occurs_at(s, pat, j));
            }
        },
    }
}

/// Putting a text in capitals keeps its length, moves the letters from code point 97 to 122 down
/// by 32 and leaves everything else: no small letter is left.
pub proof fn law_capitals(s: Seq<char>, i: int)
    requires
        0 <= i < s.len(),
    ensures
        uppercase(s).len() == s.len(),
        97 <= s[i] as int <= 122 ==> uppercase(s)[i] as int == s[i] as int - 32,
        !(97 <= s[i] as int <= 122) ==> uppercase(s)[i] == s[i],
        !(97 <= uppercase(s)[i] as int <= 122),
{
}

/// White space is these code points and no others.
pub proof fn law_white_space(c: char)
    ensures
        is_space(c) <==> seq![
            0x9u32, 0xa, 0xb, 0xc, 0xd, 0x20, 0x85, 0xa0, 0x1680, 0x2000, 0x2001, 0x2002, 0x2003,
            0x2004, 0x2005, 0x2006, 0x2007, 0x2008, 0x2009, 0x200a, 0x2028, 0x2029, 0x202f, 0x205f,
            0x3000,
        ].contains(c as u32),
{
    let all = seq![
        0x9u32, 0xa, 0xb, 0xc, 0xd, 0x20, 0x85, 0xa0, 0x1680, 0x2000, 0x2001, 0x2002, 0x2003,
        0x2004, 0x2005, 0x2006, 0x2007, 0x2008, 0x2009, 0x200a, 0x2028, 0x2029, 0x202f, 0x205f,
        0x3000,
    ];
    let n = c as u32;
    if is_space(c) {
        let i: int = if n <= 0xd {
            n - 9
        } else if n == 0x20 {
            5
        } else if n == 0x85 {
            6
        } else if n == 0xa0 {
            7
        } else if n == 0x1680 {
            8
        } else if n <= 0x200a {
            n - 0x2000 + 9
        } else if n == 0x2028 {
            20
        } else if n == 0x2029 {
            21
        } else if n == 0x202f {
            22
        } else if n == 0x205f {
            23
        } else {
            24
        };
        assert(all[i] == n);
    }
}

/// Trimming takes white space from both ends and nothing else: what is left stands in the text
/// between two stretches of white space, and neither begins nor ends with white space.
pub proof fn law_trimmed(s: Seq<char>)
    ensures
        exists|i: int, j: int|
            {
                &&& 0 <= i <= j <= s.len()
                &&& trimmed(s) == #[trigger] s.subrange(i, j)
                &&& forall|k: int| 0 <= k < i ==> is_space(#[trigger] s[k])
                &&& forall|k: int| j <= k < s.len() ==> is_space(#[trigger] s[k])
            },
        trimmed(s).len() > 0 ==> !is_space(trimmed(s)[0]) && !is_space(trimmed(s).last()),
{
    lemma_trim_start(s);
    let i = choose|i: int|
        {
            &&& 0 <= i <= s.len()
            &&& trim_start(s) == #[trigger] s.skip(i)
            &&& forall|k: int| 0 <= k < i ==> is_space(#[trigger] s[k])
        };
    let t = trim_start(s);
    lemma_trim_end(t);
    let j = choose|j: int|
        {
            &&& 0 <= j <= t.len()
            &&& trim_end(t) == #[trigger] t.take(j)
            &&& forall|k: int| j <= k < t.len() ==> is_space(#[trigger] t[k])
        };
    assert(t.take(j) =~= s.subrange(i, i + j));
    assert forall|k: int| i + j <= k < s.len() implies is_space(#[trigger] s[k]) by {
        assert(t[k - i] == s[k]);
    }
    if trimmed(s).len() > 0 {
        assert(trimmed(s)[0] == t[0]);
    }
}

proof fn lemma_trim_start(s: Seq<char>)
    ensures
        exists|i: int|
            {
                &&& 0 <= i <= s.len()
                &&& trim_start(s) == #[trigger] s.skip(i)
                &&& forall|k: int| 0 <= k < i ==> is_space(#[trigger] s[k])
            },
        trim_start(s).len() > 0 ==> !is_space(trim_start(s)[0]),
    decreases s.len(),
{
    if s.len() > 0 && is_space(s[0]) {
        let t = s.drop_first();
        lemma_trim_start(t);
        let i = choose|i: int|
            {
                &&& 0 <= i <= t.len()
                &&& trim_start(t) == #[trigger] t.skip(i)
                &&& forall|k: int| 0 <= k < i ==> is_space(#[trigger] t[k])
            };
        assert(t.skip(i) =~= s.skip(i + 1));
        assert forall|k: int| 0 <= k < i + 1 implies is_space(#[trigger] s[k]) by {
            if k > 0 {
                assert(t[k - 1] == s[k]);
            }
        }
    } else {
        assert(s.skip(0) =~= s);
    }
}

proof fn lemma_trim_end(s: Seq<char>)
    ensures
        exists|j: int|
            {
                &&& 0 <= j <= s.len()
                &&& trim_end(s) == #[trigger] s.take(j)
                &&& forall|k: int| j <= k < s.len() ==> is_space(#[trigger] s[k])
            },
        trim_end(s).len() > 0 ==> !is_space(trim_end(s).last()),
    decreases s.len(),
{
    if s.len() > 0 && is_space(s.last()) {
        let t = s.drop_last();
        lemma_trim_end(t);
        let j = choose|j: int|
            {
                &&& 0 <= j <= t.len()
                &&& trim_end(t) == #[trigger] t.take(j)
                &&& forall|k: int| j <= k < t.len() ==> is_space(#[trigger] t[k])
            };
        assert(t.take(j) =~= s.take(j));
        assert forall|k: int| j <= k < s.len() implies is_space(#[trigger] s[k]) by {
            if k < t.len() {
                assert(t[k] == s[k]);
            }
        }
    } else {
        assert(s.take(s.len() as int) =~= s);
    }
}

/// A text is its first line, or its first line, the end of that line and more. The end is a
/// carriage return and a line feed, or a line feed alone behind a line that does not end in a
/// carriage return. A line holds no line feed, and only the empty text has none.
pub proof fn law_first_line(s: Seq<char>)
    ensures
        first_line_of(s) is None <==> s.len() == 0,
        first_line_of(s) matches Some(line) ==> {
            &&& !line.contains('\n')
            &&& {
                ||| s == line
                ||| exists|rest: Seq<char>| #[trigger] (line + "\r\n"@ + rest) == s
                ||| (line.len() == 0 || line.last() != '\r') && exists|rest: Seq<char>| #[trigger]
                    (line + "\n"@ + rest) == s
            }
        },
{
    reveal_strlit("\n");
    reveal_strlit("\r\n");
    let newline = seq!['\n'];
    lemma_first_match(s, newline, 0);
    if s.len() > 0 {
        let line = first_line_of(s)->0;
        if line.contains('\n') {
            let k = line.index_of('\n');
            assert(s[k] == '\n');
            assert(s.subrange(k, k + 1) =~= newline);
            assert(occurs_at(s, newline, k));
        }
        if let Some(i) = first_match(s, newline, 0) {
            assert(s.subrange(i, i + 1)[0] == s[i]);
            let rest = s.skip(i + 1);
            if i > 0 && s[i - 1] == '\r' {
                assert(line + "\r\n"@ + rest =~= s);
            } else {
                assert(line + "\n"@ + rest =~= s);
                if line.len() > 0 {
                    assert(line.last() == s[i - 1]);
                }
            }
        }
    }
}

/// Joining nothing gives nothing, joining one text gives that text, and joining two lists is
/// joining each and putting the separator between: so every text stands there, whole and in order.
pub proof fn law_joined(a: Seq<Seq<char>>, b: Seq<Seq<char>>, text: Seq<char>, sep: Seq<char>)
    ensures
        joined(seq![], sep) == Seq::<char>::empty(),
        joined(seq![text], sep) == text,
        a.len() > 0 && b.len() > 0 ==> joined(a + b, sep) == joined(a, sep) + sep + joined(b, sep),
    decreases b.len(),
{
    if a.len() > 0 && b.len() > 0 {
        let all = a + b;
        assert(all.drop_last() =~= a + b.drop_last());
        assert(all.last() == b.last());
        if b.len() == 1 {
            assert(a + b.drop_last() =~= a);
        } else {
            law_joined(a, b.drop_last(), text, sep);
            assert(joined(all, sep) == joined(a, sep) + sep + joined(b.drop_last(), sep) + sep
                + b.last());
            assert(joined(all, sep) =~= joined(a, sep) + sep + joined(b, sep));
        }
    }
}

/// One text stands before another exactly when it is a shorter beginning of it, or when at the
/// first place where they differ its character is the smaller one.
pub proof fn law_order(a: Seq<char>, b: Seq<char>)
    ensures
        before(a, b) <==> exists|i: int| #[trigger] differ_first(a, b, i),
    decreases a.len(),
{
    if b.len() > 0 && a.len() > 0 && a[0] == b[0] {
        let x = a.drop_first();
        let y = b.drop_first();
        law_order(x, y);
        if exists|i: int| #[trigger] differ_first(x, y, i) {
            let i = choose|i: int| #[trigger] differ_first(x, y, i);
            assert forall|k: int| 0 <= k < i + 1 implies #[trigger] a[k] == b[k] by {
                if k > 0 {
                    assert(x[k - 1] == y[k - 1]);
                }
            }
            assert(differ_first(a, b, i + 1));
        }
        if exists|i: int| #[trigger] differ_first(a, b, i) {
            let i = choose|i: int| #[trigger] differ_first(a, b, i);
            assert forall|k: int| 0 <= k < i - 1 implies #[trigger] x[k] == y[k] by {
                assert(a[k + 1] == b[k + 1]);
            }
            assert(differ_first(x, y, i - 1));
        }
    } else if b.len() > 0 {
        if before(a, b) {
            assert(differ_first(a, b, 0));
        } else {
            assert forall|i: int| !#[trigger] differ_first(a, b, i) by {
                if differ_first(a, b, i) && i > 0 {
                    assert(a[0] == b[0]);
                }
            }
        }
    }
}

/// Whether two texts agree before position `i`, and there the first one ends or has the smaller
/// character.
pub open spec fn differ_first(a: Seq<char>, b: Seq<char>, i: int) -> bool {
    &&& 0 <= i <= a.len()
    &&& i < b.len()
    &&& forall|k: int| 0 <= k < i ==> #[trigger] a[k] == b[k]
    &&& i == a.len() || (a[i] as int) < (b[i] as int)
}

} // verus!
