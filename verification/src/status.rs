//! The health of a target and the status header that a check script may
//! print on its first line.
use vstd::prelude::*;

use crate::text::{
    all_white, ascii_lower_char, ascii_lower_seq, is_white, same_text, seq_is_ascii,
    to_lowercase, trim, lowercase_seq, trim_end_seq, trim_seq, trim_start_seq,
};

verus! {

/// Health of a monitored target, ordered from best to worst.
#[derive(Debug, Clone, Copy, PartialEq, Eq, Structural, PartialOrd, Ord, Hash)]
pub enum Status {
    Okay,
    Warn,
    Error,
}

/// The rank of a status from best to worst: 0 for `Okay`, 1 for `Warn`,
/// 2 for `Error`.
pub open spec fn severity(s: Status) -> int {
    match s {
        Status::Okay => 0,
        Status::Warn => 1,
        Status::Error => 2,
    }
}

/// The short name of a status: `ok`, `warn` or `err`.
pub open spec fn status_name(s: Status) -> Seq<char> {
    match s {
        Status::Okay => seq!['o', 'k'],
        Status::Warn => seq!['w', 'a', 'r', 'n'],
        Status::Error => seq!['e', 'r', 'r'],
    }
}

/// The one-character symbol of a status: a check mark, a warning sign or a
/// cross.
pub open spec fn status_glyph(s: Status) -> Seq<char> {
    match s {
        Status::Okay => seq!['\u{2713}'],
        Status::Warn => seq!['\u{26a0}'],
        Status::Error => seq!['\u{2717}'],
    }
}

/// The header line that announces a status: `# ` and its short name.
pub open spec fn header_line(s: Status) -> Seq<char> {
    seq!['#', ' '] + status_name(s)
}

/// The status that an already trimmed and lower-cased header announces.
pub open spec fn header_status(lowered: Seq<char>) -> Option<Status> {
    if lowered == header_line(Status::Okay) {
        Some(Status::Okay)
    } else if lowered == header_line(Status::Warn) {
        Some(Status::Warn)
    } else if lowered == header_line(Status::Error) {
        Some(Status::Error)
    } else {
        None
    }
}

/// The status that a script-output line announces: the line is trimmed of
/// white space and lower-cased, then compared with the three headers.
pub open spec fn header_of(line: Seq<char>) -> Option<Status> {
    header_status(lowercase_seq(trim_seq(line)))
}

impl Status {
    /// The short name: `ok`, `warn` or `err`.
    pub fn as_str(&self) -> (r: &'static str)
        ensures
            r@ == status_name(*self),
    {
        match self {
            Status::Okay => {
                proof {
                    reveal_strlit("ok");
                }
                "ok"
            },
            Status::Warn => {
                proof {
                    reveal_strlit("warn");
                }
                "warn"
            },
            Status::Error => {
                proof {
                    reveal_strlit("err");
                }
                "err"
            },
        }
    }

    /// The symbol shown in front of a target's label.
    pub fn glyph(&self) -> (r: &'static str)
        ensures
            r@ == status_glyph(*self),
    {
        match self {
            Status::Okay => {
                proof {
                    reveal_strlit("\u{2713}");
                }
                "\u{2713}"
            },
            Status::Warn => {
                proof {
                    reveal_strlit("\u{26a0}");
                }
                "\u{26a0}"
            },
            Status::Error => {
                proof {
                    reveal_strlit("\u{2717}");
                }
                "\u{2717}"
            },
        }
    }

    /// The status that a trimmed, lower-cased header line announces:
    /// `# ok`, `# warn` or `# err`; `None` for anything else.
    pub fn from_lowered_header(lowered: &str) -> (r: Option<Status>)
        ensures
            r == header_status(lowered@),
    {
        proof {
            reveal_strlit("# ok");
            reveal_strlit("# warn");
            reveal_strlit("# err");
        }
        if same_text(lowered, "# ok") {
            assert("# ok"@ =~= header_line(Status::Okay));
            Some(Status::Okay)
        } else if same_text(lowered, "# warn") {
            assert("# ok"@ =~= header_line(Status::Okay));
            assert("# warn"@ =~= header_line(Status::Warn));
            Some(Status::Warn)
        } else if same_text(lowered, "# err") {
            assert("# ok"@ =~= header_line(Status::Okay));
            assert("# warn"@ =~= header_line(Status::Warn));
            assert("# err"@ =~= header_line(Status::Error));
            Some(Status::Error)
        } else {
            assert("# ok"@ =~= header_line(Status::Okay));
            assert("# warn"@ =~= header_line(Status::Warn));
            assert("# err"@ =~= header_line(Status::Error));
            None
        }
    }

    /// Parses a script-output header line like `# ok`, `# warn`, `# err`.
    /// Matching is case-insensitive and ignores surrounding white space.
    pub fn from_header(line: &str) -> (r: Option<Status>)
        ensures
            r == header_of(line@),
    {
        let trimmed = trim(line);
        let lowered = to_lowercase(trimmed.as_str());
        Status::from_lowered_header(lowered.as_str())
    }
}

// ---------------------------------------------------------------------
// Laws of the header
// ---------------------------------------------------------------------

proof fn lemma_trim_start_white_prefix(pre: Seq<char>, s: Seq<char>)
    requires
        all_white(pre),
    ensures
        trim_start_seq(pre + s) == trim_start_seq(s),
    decreases pre.len(),
{
    if pre.len() > 0 {
        assert((pre + s)[0] == pre[0]);
        assert((pre + s).drop_first() =~= pre.drop_first() + s);
        lemma_trim_start_white_prefix(pre.drop_first(), s);
    } else {
        assert(pre + s =~= s);
    }
}

proof fn lemma_trim_end_white_suffix(s: Seq<char>, post: Seq<char>)
    requires
        all_white(post),
    ensures
        trim_end_seq(s + post) == trim_end_seq(s),
    decreases post.len(),
{
    if post.len() > 0 {
        assert((s + post).last() == post.last());
        assert((s + post).drop_last() =~= s + post.drop_last());
        lemma_trim_end_white_suffix(s, post.drop_last());
    } else {
        assert(s + post =~= s);
    }
}

proof fn lemma_trim_start_all_white(s: Seq<char>)
    requires
        all_white(s),
    ensures
        trim_start_seq(s).len() == 0,
    decreases s.len(),
{
    if s.len() > 0 {
        lemma_trim_start_all_white(s.drop_first());
    }
}

/// Trimming the start of `s + post` keeps `post` whole when `s` is not
/// all white, and leaves `trim_start_seq(post)` when it is.
proof fn lemma_trim_start_append(s: Seq<char>, post: Seq<char>)
    ensures
        !all_white(s) ==> trim_start_seq(s + post) == trim_start_seq(s) + post,
        all_white(s) ==> trim_start_seq(s + post) == trim_start_seq(post),
    decreases s.len(),
{
    if s.len() == 0 {
        assert(s + post =~= post);
    } else {
        assert((s + post)[0] == s[0]);
        assert((s + post).drop_first() =~= s.drop_first() + post);
        lemma_trim_start_append(s.drop_first(), post);
        if is_white(s[0]) {
            if !all_white(s) {
                let i = choose|i: int| 0 <= i < s.len() && !is_white(#[trigger] s[i]);
                assert(s.drop_first()[i - 1] == s[i]);
            } else {
                assert forall|i: int| 0 <= i < s.drop_first().len() implies is_white(
                    #[trigger] s.drop_first()[i],
                ) by {
                    assert(s.drop_first()[i] == s[i + 1]);
                }
            }
        } else {
            assert(!all_white(s));
        }
    }
}

/// A header line means the same with any white space around it.
pub proof fn lemma_header_ignores_surrounding_white(pre: Seq<char>, line: Seq<char>, post: Seq<char>)
    requires
        all_white(pre),
        all_white(post),
    ensures
        header_of(pre + line + post) == header_of(line),
{
    lemma_trim_start_white_prefix(pre, line + post);
    assert(pre + line + post =~= pre + (line + post));
    lemma_trim_start_append(line, post);
    if all_white(line) {
        lemma_trim_start_all_white(post);
        lemma_trim_start_all_white(line);
        assert(trim_start_seq(post) =~= Seq::<char>::empty());
        assert(trim_start_seq(line) =~= Seq::<char>::empty());
    } else {
        lemma_trim_end_white_suffix(trim_start_seq(line), post);
    }
}

proof fn lemma_lower_preserves_white(c: char)
    requires
        (c as u32) < 128,
    ensures
        is_white(ascii_lower_char(c)) == is_white(c),
        (ascii_lower_char(c) as u32) < 128,
{
}

proof fn lemma_lower_trim_start(s: Seq<char>)
    requires
        seq_is_ascii(s),
    ensures
        ascii_lower_seq(trim_start_seq(s)) == trim_start_seq(ascii_lower_seq(s)),
        seq_is_ascii(trim_start_seq(s)),
    decreases s.len(),
{
    let l = ascii_lower_seq(s);
    if s.len() > 0 {
        lemma_lower_preserves_white(s[0]);
        assert(l[0] == ascii_lower_char(s[0]));
        assert(ascii_lower_seq(s.drop_first()) =~= l.drop_first());
        assert(seq_is_ascii(s.drop_first())) by {
            assert forall|i: int| 0 <= i < s.drop_first().len() implies (#[trigger] s.drop_first()[i] as u32)
                < 128 by {
                assert(s.drop_first()[i] == s[i + 1]);
            }
        }
        lemma_lower_trim_start(s.drop_first());
    }
}

proof fn lemma_lower_trim_end(s: Seq<char>)
    requires
        seq_is_ascii(s),
    ensures
        ascii_lower_seq(trim_end_seq(s)) == trim_end_seq(ascii_lower_seq(s)),
        seq_is_ascii(trim_end_seq(s)),
    decreases s.len(),
{
    let l = ascii_lower_seq(s);
    if s.len() > 0 {
        lemma_lower_preserves_white(s.last());
        assert(l.last() == ascii_lower_char(s.last()));
        assert(ascii_lower_seq(s.drop_last()) =~= l.drop_last());
        assert(seq_is_ascii(s.drop_last())) by {
            assert forall|i: int| 0 <= i < s.drop_last().len() implies (#[trigger] s.drop_last()[i] as u32)
                < 128 by {
                assert(s.drop_last()[i] == s[i]);
            }
        }
        lemma_lower_trim_end(s.drop_last());
    }
}

/// For ASCII lines, the header does not depend on letter case: two lines
/// that differ only in the case of their letters announce the same status.
pub proof fn lemma_header_ascii_case_insensitive(a: Seq<char>, b: Seq<char>)
    requires
        seq_is_ascii(a),
        seq_is_ascii(b),
        ascii_lower_seq(a) == ascii_lower_seq(b),
    ensures
        header_of(a) == header_of(b),
{
    lemma_lower_trim_start(a);
    lemma_lower_trim_start(b);
    lemma_lower_trim_end(trim_start_seq(a));
    lemma_lower_trim_end(trim_start_seq(b));
}

/// The header written for a status announces that status.
pub proof fn lemma_header_round_trip(s: Status)
    ensures
        header_of(header_line(s)) == Some(s),
{
    let h = header_line(s);
    assert(seq_is_ascii(h));
    assert(!is_white(h[0]));
    assert(trim_start_seq(h) == h);
    assert(!is_white(h.last()));
    assert(trim_end_seq(h) == h);
    assert(ascii_lower_seq(h) =~= h);
}

/// A line is a status header exactly when, trimmed of white space and
/// lower-cased, it is one of `# ok`, `# warn` or `# err` itself; a line
/// that only begins with one of them, such as `# errors: 0`, is no header.
pub proof fn lemma_header_only_exact(line: Seq<char>, s: Status)
    ensures
        forall|lowered: Seq<char>| #[trigger] header_status(lowered) == Some(s) <==> lowered == header_line(s),
        header_of(line) == Some(s) <==> lowercase_seq(trim_seq(line)) == header_line(s),
        header_of(line) is None <==> (forall|x: Status| lowercase_seq(trim_seq(line)) != #[trigger] header_line(x)),
{
    assert(header_line(Status::Okay) != header_line(Status::Warn)) by {
        assert(header_line(Status::Okay).len() != header_line(Status::Warn).len());
    }
    assert(header_line(Status::Warn) != header_line(Status::Error)) by {
        assert(header_line(Status::Warn).len() != header_line(Status::Error).len());
    }
    assert(header_line(Status::Okay) != header_line(Status::Error)) by {
        assert(header_line(Status::Okay)[2] != header_line(Status::Error)[2]);
    }
}

} // verus!
