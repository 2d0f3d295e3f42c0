//! Character-level text handling: trimming, case folding, line splitting,
//! word splitting, substring search, decimal numbers.
use vstd::prelude::*;

verus! {

// ---------------------------------------------------------------------
// Primitives
// ---------------------------------------------------------------------

/// Whether `c` has the Unicode `White_Space` property, as
/// `char::is_whitespace` answers it: tab, line feed, vertical tab, form
/// feed, carriage return, space, next line (U+0085), no-break space
/// (U+00A0), ogham space mark (U+1680), the spaces U+2000 to U+200A, line
/// and paragraph separator (U+2028, U+2029), narrow no-break space
/// (U+202F), medium mathematical space (U+205F) and ideographic space
/// (U+3000).
pub open spec fn is_white(c: char) -> bool {
    let u = c as u32;
    ||| 9 <= u <= 13
    ||| u == 0x20
    ||| u == 0x85
    ||| u == 0xa0
    ||| u == 0x1680
    ||| 0x2000 <= u <= 0x200a
    ||| u == 0x2028
    ||| u == 0x2029
    ||| u == 0x202f
    ||| u == 0x205f
    ||| u == 0x3000
}

/// Whether `c` is white space, as `char::is_whitespace` answers it.
pub fn char_is_whitespace(c: char) -> (b: bool)
    ensures
        b == is_white(c),
{
    let u = c as u32;
    (9 <= u && u <= 13) || u == 0x20 || u == 0x85 || u == 0xa0 || u == 0x1680 || (0x2000 <= u
        && u <= 0x200a) || u == 0x2028 || u == 0x2029 || u == 0x202f || u == 0x205f || u
        == 0x3000
}

/// Calls `String::push`: appends one character.
#[verifier::external_body]
pub(crate) fn push_char(s: &mut String, c: char)
    ensures
        final(s)@ == old(s)@.push(c),
{
    s.push(c)
}

/// The characters of `s`, in order.
pub fn chars_of(s: &str) -> (v: Vec<char>)
    ensures
        v@ == s@,
{
    let mut v: Vec<char> = Vec::new();
    for c in it: s.chars()
        invariant
            v@ == it.seq().take(it.index() as int),
            it.seq() == s@,
    {
        v.push(c);
    }
    v
}

/// The string made of `v[from..to]`.
pub fn string_from_chars(v: &Vec<char>, from: usize, to: usize) -> (s: String)
    requires
        from <= to <= v.len(),
    ensures
        s@ == v@.subrange(from as int, to as int),
{
    let mut s = String::new();
    let mut i = from;
    while i < to
        invariant
            from <= i <= to <= v.len(),
            s@ == v@.subrange(from as int, i as int),
        decreases to - i,
    {
        push_char(&mut s, v[i]);
        i = i + 1;
        assert(s@ =~= v@.subrange(from as int, i as int));
    }
    s
}

/// A copy of the string slice `s`.
pub fn string_of(s: &str) -> (r: String)
    ensures
        r@ == s@,
{
    let v = chars_of(s);
    string_from_chars(&v, 0, v.len())
}

/// Whether two strings hold the same characters.
pub fn same_text(a: &str, b: &str) -> (r: bool)
    ensures
        r == (a@ == b@),
{
    let x = chars_of(a);
    let y = chars_of(b);
    if x.len() != y.len() {
        return false;
    }
    let mut i: usize = 0;
    while i < x.len()
        invariant
            x@ == a@,
            y@ == b@,
            x.len() == y.len(),
            i <= x.len(),
            forall|k: int| 0 <= k < i ==> x@[k] == y@[k],
        decreases x.len() - i,
    {
        if x[i] != y[i] {
            return false;
        }
        i = i + 1;
    }
    assert(x@ =~= y@);
    true
}

// ---------------------------------------------------------------------
// Trimming
// ---------------------------------------------------------------------

/// `s` without its leading white space.
pub open spec fn trim_start_seq(s: Seq<char>) -> Seq<char>
    decreases s.len(),
{
    if s.len() > 0 && is_white(s[0]) {
        trim_start_seq(s.drop_first())
    } else {
        s
    }
}

/// `s` without its trailing white space.
pub open spec fn trim_end_seq(s: Seq<char>) -> Seq<char>
    decreases s.len(),
{
    if s.len() > 0 && is_white(s.last()) {
        trim_end_seq(s.drop_last())
    } else {
        s
    }
}

/// `s` without leading and trailing white space, as `str::trim` gives it.
pub open spec fn trim_seq(s: Seq<char>) -> Seq<char> {
    trim_end_seq(trim_start_seq(s))
}

/// Every character of `s` is white space.
pub open spec fn all_white(s: Seq<char>) -> bool {
    forall|i: int| 0 <= i < s.len() ==> is_white(#[trigger] s[i])
}

proof fn lemma_trim_start_step(s: Seq<char>, i: int)
    requires
        0 <= i < s.len(),
        is_white(s[i]),
    ensures
        trim_start_seq(s.subrange(i, s.len() as int)) == trim_start_seq(
            s.subrange(i + 1, s.len() as int),
        ),
{
    assert(s.subrange(i, s.len() as int).drop_first() =~= s.subrange(i + 1, s.len() as int));
}

proof fn lemma_trim_end_step(s: Seq<char>, a: int, j: int)
    requires
        0 <= a < j <= s.len(),
        is_white(s[j - 1]),
    ensures
        trim_end_seq(s.subrange(a, j)) == trim_end_seq(s.subrange(a, j - 1)),
{
    assert(s.subrange(a, j).drop_last() =~= s.subrange(a, j - 1));
}

/// The characters of `s` without leading and trailing white space.
pub fn trim(s: &str) -> (r: String)
    ensures
        r@ == trim_seq(s@),
{
    let v = chars_of(s);
    let n = v.len();
    let mut a: usize = 0;
    assert(s@.subrange(0, n as int) =~= s@);
    while a < n && char_is_whitespace(v[a])
        invariant
            v@ == s@,
            n == v.len(),
            a <= n,
            trim_start_seq(s@) == trim_start_seq(s@.subrange(a as int, n as int)),
        decreases n - a,
    {
        proof {
            lemma_trim_start_step(s@, a as int);
        }
        a = a + 1;
    }
    assert(trim_start_seq(s@) == s@.subrange(a as int, n as int));
    let mut b: usize = n;
    while b > a && char_is_whitespace(v[b - 1])
        invariant
            v@ == s@,
            n == v.len(),
            a <= b <= n,
            trim_seq(s@) == trim_end_seq(s@.subrange(a as int, b as int)),
        decreases b - a,
    {
        proof {
            lemma_trim_end_step(s@, a as int, b as int);
        }
        b = b - 1;
    }
    proof {
        let t = s@.subrange(a as int, b as int);
        if t.len() > 0 {
            assert(t.last() == s@[b - 1]);
        }
    }
    string_from_chars(&v, a, b)
}


// ---------------------------------------------------------------------
// Case folding and byte decoding
// ---------------------------------------------------------------------

/// Every character of `s` is ASCII.
pub open spec fn seq_is_ascii(s: Seq<char>) -> bool {
    forall|i: int| 0 <= i < s.len() ==> (#[trigger] s[i] as u32) < 128
}

/// ASCII lower-casing of one character: `A`..`Z` become `a`..`z`.
pub open spec fn ascii_lower_char(c: char) -> char {
    if 65 <= (c as u32) <= 90 {
        ((c as u32) + 32) as char
    } else {
        c
    }
}

/// ASCII lower-casing of every character of `s`.
pub open spec fn ascii_lower_seq(s: Seq<char>) -> Seq<char> {
    s.map_values(|c: char| ascii_lower_char(c))
}

/// What `str::to_lowercase` returns for a string that is not all ASCII.
pub uninterp spec fn unicode_lowercase(s: Seq<char>) -> Seq<char>;

/// What `str::to_lowercase` returns: for an all-ASCII string its ASCII
/// lower-casing (only `A`..`Z` change); for any other string the Unicode
/// lower-case mapping, named by `unicode_lowercase`.
pub open spec fn lowercase_seq(s: Seq<char>) -> Seq<char> {
    if seq_is_ascii(s) {
        ascii_lower_seq(s)
    } else {
        unicode_lowercase(s)
    }
}

/// Calls `str::to_lowercase`. The result is the lower-case mapping of `s`
/// as `lowercase_seq` gives it: spelled out for ASCII text, named for the
/// rest. What the mapping does beyond ASCII is left unsaid.
#[verifier::external_body]
pub(crate) fn to_lowercase(s: &str) -> (r: String)
    ensures
        r@ == lowercase_seq(s@),
        !seq_is_ascii(s@) ==> r@ == unicode_lowercase(s@),
{
    s.to_lowercase()
}

/// What `String::from_utf8_lossy` makes of these bytes.
pub uninterp spec fn utf8_lossy(bytes: Seq<u8>) -> Seq<char>;

/// Calls `String::from_utf8_lossy`. The result is named by `utf8_lossy`;
/// bytes that are valid UTF-8 decode to exactly their characters. How
/// invalid sequences are replaced is left unsaid.
#[verifier::external_body]
pub(crate) fn from_utf8_lossy(bytes: &[u8]) -> (r: String)
    ensures
        r@ == utf8_lossy(bytes@),
        vstd::utf8::valid_utf8(bytes@) ==> r@ == vstd::utf8::decode_utf8(bytes@),
{
    String::from_utf8_lossy(bytes).into_owned()
}

// ---------------------------------------------------------------------
// Lines
// ---------------------------------------------------------------------

/// Index of the first `c` in `s`, or `s.len()` when there is none.
pub open spec fn first_index_of(s: Seq<char>, c: char) -> nat
    decreases s.len(),
{
    if s.len() == 0 {
        0
    } else if s[0] == c {
        0
    } else {
        1 + first_index_of(s.drop_first(), c)
    }
}

/// `s` without one trailing carriage return.
pub open spec fn strip_cr(s: Seq<char>) -> Seq<char> {
    if s.len() > 0 && s.last() == '\r' {
        s.drop_last()
    } else {
        s
    }
}

/// The lines of `s` as `str::lines` yields them: split at `\n`, a `\r`
/// just before a `\n` removed, no empty line after a final `\n`.
pub open spec fn lines_seq(s: Seq<char>) -> Seq<Seq<char>>
    decreases s.len(),
{
    if s.len() == 0 {
        Seq::empty()
    } else {
        let k = first_index_of(s, '\n');
        if k < s.len() {
            seq![strip_cr(s.subrange(0, k as int))] + lines_seq(s.subrange(k + 1 as int, s.len() as int))
        } else {
            seq![s]
        }
    }
}

proof fn lemma_first_index_of(s: Seq<char>, c: char, k: int)
    requires
        0 <= k <= s.len(),
        forall|m: int| 0 <= m < k ==> s[m] != c,
        k == s.len() || s[k] == c,
    ensures
        first_index_of(s, c) == k,
    decreases k,
{
    if k > 0 {
        lemma_first_index_of(s.drop_first(), c, k - 1);
    }
}

/// The view of an optional string.
pub open spec fn opt_view(o: Option<String>) -> Option<Seq<char>> {
    match o {
        Some(s) => Some(s@),
        None => None,
    }
}

/// The views of a sequence of strings.
pub open spec fn views(v: Seq<String>) -> Seq<Seq<char>> {
    v.map_values(|x: String| x@)
}

/// The lines of `s`, as `str::lines` yields them.
pub fn lines(s: &str) -> (r: Vec<String>)
    ensures
        views(r@) == lines_seq(s@),
{
    let v = chars_of(s);
    let n = v.len();
    let mut r: Vec<String> = Vec::new();
    let mut start: usize = 0;
    assert(s@.subrange(0, n as int) =~= s@);
    while start < n
        invariant
            v@ == s@,
            n == v.len(),
            start <= n,
            lines_seq(s@) == views(r@) + lines_seq(s@.subrange(start as int, n as int)),
        decreases n - start,
    {
        let mut k = start;
        while k < n && v[k] != '\n'
            invariant
                v@ == s@,
                n == v.len(),
                start <= k <= n,
                forall|m: int| start <= m < k ==> v@[m] != '\n',
            decreases n - k,
        {
            k = k + 1;
        }
        let ghost rest = s@.subrange(start as int, n as int);
        proof {
            lemma_first_index_of(rest, '\n', k - start);
        }
        if k < n {
            let mut end = k;
            if end > start && v[end - 1] == '\r' {
                end = end - 1;
            }
            let line = string_from_chars(&v, start, end);
            proof {
                assert(rest.subrange(0, k - start) =~= s@.subrange(start as int, k as int));
                assert(line@ == strip_cr(rest.subrange(0, k - start)));
                assert(rest.subrange(k - start + 1, rest.len() as int) =~= s@.subrange(
                    k + 1,
                    n as int,
                ));
            }
            let ghost before = r@;
            r.push(line);
            proof {
                assert(views(r@) =~= views(before).push(line@));
                assert(views(before).push(line@) + lines_seq(s@.subrange(k + 1, n as int))
                    =~= views(before) + (seq![line@] + lines_seq(s@.subrange(k + 1, n as int))));
            }
            start = k + 1;
        } else {
            let line = string_from_chars(&v, start, n);
            let ghost before = r@;
            r.push(line);
            proof {
                assert(views(r@) =~= views(before).push(line@));
                assert(line@ =~= rest);
                assert(s@.subrange(n as int, n as int) =~= Seq::<char>::empty());
                assert(lines_seq(Seq::<char>::empty()) =~= Seq::<Seq<char>>::empty());
                assert(views(before) + seq![rest] =~= views(r@) + Seq::<Seq<char>>::empty());
            }
            start = n;
        }
    }
    proof {
        assert(s@.subrange(n as int, n as int) =~= Seq::<char>::empty());
        assert(views(r@) + Seq::<Seq<char>>::empty() =~= views(r@));
    }
    r
}


/// The parts joined with a line feed between each two.
pub open spec fn join_lines_seq(parts: Seq<Seq<char>>) -> Seq<char>
    decreases parts.len(),
{
    if parts.len() == 0 {
        Seq::empty()
    } else if parts.len() == 1 {
        parts[0]
    } else {
        join_lines_seq(parts.drop_last()) + seq!['\n'] + parts.last()
    }
}

/// The first `limit` of `parts` (all of them if there are fewer), joined
/// with line feeds.
pub fn join_first_lines(parts: &Vec<String>, limit: usize) -> (r: String)
    ensures
        r@ == join_lines_seq(views(parts@).take(if parts.len() < limit { parts.len() as int } else { limit as int })),
{
    let count = if parts.len() < limit { parts.len() } else { limit };
    let mut r = String::new();
    let mut i: usize = 0;
    while i < count
        invariant
            count <= parts.len(),
            i <= count,
            r@ == join_lines_seq(views(parts@).take(i as int)),
        decreases count - i,
    {
        let ghost prev = views(parts@).take(i as int);
        if i > 0 {
            push_char(&mut r, '\n');
        }
        r.append(parts[i].as_str());
        proof {
            let next = views(parts@).take(i + 1);
            assert(next.drop_last() =~= prev);
            assert(next.last() == parts@[i as int]@);
            if i == 0 {
                assert(r@ =~= next[0]);
            } else {
                assert(r@ =~= join_lines_seq(prev) + seq!['\n'] + next.last());
            }
        }
        i = i + 1;
    }
    r
}

// ---------------------------------------------------------------------
// Substrings and words
// ---------------------------------------------------------------------

/// `needle` occurs in `hay` as a contiguous run (always, when it is empty).
pub open spec fn has_substring(hay: Seq<char>, needle: Seq<char>) -> bool {
    exists|i: int|
        0 <= i && i + needle.len() <= hay.len() && #[trigger] hay.subrange(i, i + needle.len())
            == needle
}

/// Whether `needle` occurs in `hay`, as `str::contains` with a string
/// pattern answers it.
pub fn contains(hay: &str, needle: &str) -> (r: bool)
    ensures
        r == has_substring(hay@, needle@),
{
    let h = chars_of(hay);
    let p = chars_of(needle);
    if p.len() > h.len() {
        proof {
            assert forall|i: int|
                0 <= i && i + p.len() <= h.len() implies #[trigger] h@.subrange(i, i + p.len())
                != p@ by {}
        }
        return false;
    }
    let last = h.len() - p.len();
    let mut i: usize = 0;
    while i <= last
        invariant
            h@ == hay@,
            p@ == needle@,
            last == h.len() - p.len(),
            p.len() <= h.len(),
            forall|m: int|
                0 <= m < i ==> #[trigger] h@.subrange(m, m + p.len()) != p@,
        decreases last + 1 - i,
    {
        let mut j: usize = 0;
        let mut matched = true;
        while j < p.len()
            invariant
                h@ == hay@,
                p@ == needle@,
                i <= last,
                last == h.len() - p.len(),
                j <= p.len(),
                matched ==> forall|k: int| 0 <= k < j ==> h@[i + k] == p@[k],
                !matched ==> h@.subrange(i as int, i + p.len()) != p@,
            decreases p.len() - j,
        {
            if matched && h[i + j] != p[j] {
                matched = false;
                assert(h@.subrange(i as int, i + p.len())[j as int] != p@[j as int]);
            }
            j = j + 1;
        }
        if matched {
            assert(h@.subrange(i as int, i + p.len()) =~= p@);
            return true;
        }
        if i == last {
            proof {
                assert forall|m: int|
                    0 <= m && m + p.len() <= h.len() implies #[trigger] h@.subrange(m, m + p.len())
                    != p@ by {
                    assert(m <= last);
                }
            }
            return false;
        }
        i = i + 1;
    }
    proof {
        assert forall|m: int|
            0 <= m && m + p.len() <= h.len() implies #[trigger] h@.subrange(m, m + p.len())
            != p@ by {
            assert(m <= last);
        }
    }
    false
}

/// Index of the first white-space character of `s`, or `s.len()`.
pub open spec fn first_white_index(s: Seq<char>) -> nat
    decreases s.len(),
{
    if s.len() == 0 {
        0
    } else if is_white(s[0]) {
        0
    } else {
        1 + first_white_index(s.drop_first())
    }
}

proof fn lemma_first_white_index(s: Seq<char>, k: int)
    requires
        0 <= k <= s.len(),
        forall|m: int| 0 <= m < k ==> !is_white(#[trigger] s[m]),
        k == s.len() || is_white(s[k]),
    ensures
        first_white_index(s) == k,
    decreases k,
{
    if k > 0 {
        assert forall|m: int| 0 <= m < k - 1 implies !is_white(
            #[trigger] s.drop_first()[m],
        ) by {
            assert(s.drop_first()[m] == s[m + 1]);
        }
        lemma_first_white_index(s.drop_first(), k - 1);
    }
}

pub proof fn lemma_first_white_bound(s: Seq<char>)
    ensures
        first_white_index(s) <= s.len(),
    decreases s.len(),
{
    if s.len() > 0 {
        lemma_first_white_bound(s.drop_first());
    }
}

/// The words of `s`: its maximal runs of non-white-space characters, in
/// order, as `str::split_whitespace` yields them.
pub open spec fn words_seq(s: Seq<char>) -> Seq<Seq<char>>
    decreases s.len(),
{
    if s.len() == 0 {
        Seq::empty()
    } else if is_white(s[0]) {
        words_seq(s.drop_first())
    } else {
        let k = first_white_index(s);
        proof {
            lemma_first_white_bound(s.drop_first());
        }
        seq![s.subrange(0, k as int)] + words_seq(s.subrange(k as int, s.len() as int))
    }
}

/// The words of `s`, as `str::split_whitespace` yields them.
pub fn split_whitespace(s: &str) -> (r: Vec<String>)
    ensures
        views(r@) == words_seq(s@),
{
    let v = chars_of(s);
    let n = v.len();
    let mut r: Vec<String> = Vec::new();
    let mut pos: usize = 0;
    assert(s@.subrange(0, n as int) =~= s@);
    while pos < n
        invariant
            v@ == s@,
            n == v.len(),
            pos <= n,
            words_seq(s@) == views(r@) + words_seq(s@.subrange(pos as int, n as int)),
        decreases n - pos,
    {
        let ghost rest = s@.subrange(pos as int, n as int);
        if char_is_whitespace(v[pos]) {
            assert(rest.drop_first() =~= s@.subrange(pos + 1, n as int));
            pos = pos + 1;
        } else {
            let mut k = pos + 1;
            while k < n && !char_is_whitespace(v[k])
                invariant
                    v@ == s@,
                    n == v.len(),
                    pos < k <= n,
                    forall|m: int| pos <= m < k ==> !is_white(#[trigger] v@[m]),
                decreases n - k,
            {
                k = k + 1;
            }
            proof {
                assert forall|m: int| 0 <= m < k - pos implies !is_white(
                    #[trigger] rest[m],
                ) by {
                    assert(rest[m] == v@[pos + m]);
                }
                lemma_first_white_index(rest, k - pos);
                assert(rest.subrange(0, k - pos) =~= s@.subrange(pos as int, k as int));
                assert(rest.subrange(k - pos, rest.len() as int) =~= s@.subrange(
                    k as int,
                    n as int,
                ));
            }
            let word = string_from_chars(&v, pos, k);
            let ghost before = r@;
            r.push(word);
            proof {
                assert(views(r@) =~= views(before).push(word@));
                assert(views(before).push(word@) + words_seq(s@.subrange(k as int, n as int))
                    =~= views(before) + (seq![word@] + words_seq(s@.subrange(k as int, n as int))));
            }
            pos = k;
        }
    }
    proof {
        assert(s@.subrange(n as int, n as int) =~= Seq::<char>::empty());
        assert(views(r@) + Seq::<Seq<char>>::empty() =~= views(r@));
    }
    r
}

// ---------------------------------------------------------------------
// Decimal numbers
// ---------------------------------------------------------------------

/// `c` is one of `0`..`9`.
pub open spec fn is_digit(c: char) -> bool {
    48 <= (c as u32) <= 57
}

/// The number that a run of decimal digits spells.
pub open spec fn digits_value(d: Seq<char>) -> nat
    decreases d.len(),
{
    if d.len() == 0 {
        0
    } else {
        digits_value(d.drop_last()) * 10 + ((d.last() as u32) - 48) as nat
    }
}

/// `s` without one leading `+`.
pub open spec fn unsigned_digits(s: Seq<char>) -> Seq<char> {
    if s.len() > 0 && s[0] == '+' {
        s.drop_first()
    } else {
        s
    }
}

/// Every character of `d` is a decimal digit.
pub open spec fn all_digits(d: Seq<char>) -> bool {
    forall|i: int| 0 <= i < d.len() ==> is_digit(#[trigger] d[i])
}

/// What `s.parse::<u32>()` gives: an optional `+` and then one or more
/// decimal digits whose value fits in 32 bits; anything else is refused.
pub open spec fn parse_u32_seq(s: Seq<char>) -> Option<u32> {
    let d = unsigned_digits(s);
    if d.len() > 0 && all_digits(d) && digits_value(d) <= u32::MAX {
        Some(digits_value(d) as u32)
    } else {
        None
    }
}

/// Parses a decimal `u32` the way `str::parse::<u32>` does.
pub fn parse_u32(s: &str) -> (r: Option<u32>)
    ensures
        r == parse_u32_seq(s@),
{
    let v = chars_of(s);
    let n = v.len();
    let start: usize = if n > 0 && v[0] == '+' { 1 } else { 0 };
    let ghost d = unsigned_digits(s@);
    assert(d =~= s@.subrange(start as int, n as int));
    if start == n {
        return None;
    }
    let cap: u64 = 0x1_0000_0000;
    let mut acc: u64 = 0;
    let mut i = start;
    while i < n
        invariant
            v@ == s@,
            n == v.len(),
            start <= i <= n,
            start < n,
            d == s@.subrange(start as int, n as int),
            d == unsigned_digits(s@),
            cap == 0x1_0000_0000,
            forall|m: int| start <= m < i ==> is_digit(#[trigger] v@[m]),
            acc == (if digits_value(s@.subrange(start as int, i as int)) < cap {
                digits_value(s@.subrange(start as int, i as int))
            } else {
                cap as nat
            }),
        decreases n - i,
    {
        let c = v[i];
        let code = c as u32;
        if code < 48 || code > 57 {
            assert(!is_digit(c));
            assert(d[i - start] == c);
            assert(!is_digit(d[i - start]));
            assert(!all_digits(d));
            return None;
        }
        let digit = (code - 48) as u64;
        let next = acc * 10 + digit;
        acc = if next > cap { cap } else { next };
        proof {
            let pre = s@.subrange(start as int, i as int);
            let post = s@.subrange(start as int, i + 1);
            assert(post.drop_last() =~= pre);
            assert(post.last() == c);
        }
        i = i + 1;
    }
    assert(s@.subrange(start as int, n as int) == d);
    assert forall|m: int| 0 <= m < d.len() implies is_digit(#[trigger] d[m]) by {
        assert(d[m] == v@[start + m]);
    }
    assert(all_digits(d));
    if acc > 0xFFFF_FFFF {
        None
    } else {
        Some(acc as u32)
    }
}

/// The character of a decimal digit.
pub open spec fn digit_char(d: nat) -> char {
    (48 + d) as char
}

/// The decimal spelling of `n`, without leading zeros.
pub open spec fn decimal_seq(n: nat) -> Seq<char>
    decreases n,
{
    if n < 10 {
        seq![digit_char(n)]
    } else {
        decimal_seq(n / 10).push(digit_char(n % 10))
    }
}

/// The decimal spelling of an integer, with a leading `-` when negative.
pub open spec fn signed_decimal_seq(i: int) -> Seq<char> {
    if i < 0 {
        seq!['-'] + decimal_seq((-i) as nat)
    } else {
        decimal_seq(i as nat)
    }
}

fn digit_to_char(d: u64) -> (c: char)
    requires
        d < 10,
    ensures
        c == digit_char(d as nat),
{
    let b: u8 = 48 + d as u8;
    b as char
}

/// Writes `n` in decimal, as `u64::to_string` does.
pub fn u64_to_decimal(n: u64) -> (r: String)
    ensures
        r@ == decimal_seq(n as nat),
    decreases n,
{
    if n < 10 {
        let mut s = String::new();
        push_char(&mut s, digit_to_char(n));
        s
    } else {
        let mut s = u64_to_decimal(n / 10);
        push_char(&mut s, digit_to_char(n % 10));
        s
    }
}

/// Writes `n` in decimal, as `i8::to_string` does.
pub fn i8_to_decimal(n: i8) -> (r: String)
    ensures
        r@ == signed_decimal_seq(n as int),
{
    if n < 0 {
        let m: u64 = (0 - (n as i64)) as u64;
        let digits = u64_to_decimal(m);
        let mut s = String::new();
        push_char(&mut s, '-');
        s.append(digits.as_str());
        s
    } else {
        u64_to_decimal(n as u64)
    }
}

} // verus!
