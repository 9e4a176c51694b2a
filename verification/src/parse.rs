//! The dump-line parser: one whitespace-separated line per allocation
//! change, `OP TYPE OFFSET [LEN]`, with `LEN` present exactly on inserts.

use vstd::prelude::*;
use crate::decimal::{all_digits, dec_val, parse_u64};
use crate::errors::FragViewError;

verus! {

/// The two families of extents a block group can hold.
#[derive(Debug, Clone, Copy, PartialEq, Eq, Structural)]
pub enum ExtentType {
    Data,
    Metadata,
}

/// What kind of allocation a dump line speaks of.
#[derive(Debug, Clone, Copy, PartialEq, Eq, Structural)]
pub enum AllocType {
    BlockGroup,
    Extent(ExtentType),
}

/// The identity of a changed allocation: its kind and its start offset.
#[derive(Debug, Clone, Copy, PartialEq, Eq, Structural)]
pub struct AllocId {
    pub alloc_type: AllocType,
    pub offset: u64,
}

/// One parsed dump line.
#[derive(Debug, Clone, Copy, PartialEq, Eq, Structural)]
pub enum AllocChange {
    Insert(AllocId, u64),
    Delete(AllocId),
}

/// What parsing a line yields: a change, or the offending token (the
/// whole line when a needed token is missing).
pub enum ParsedLine {
    Change(AllocChange),
    BadToken(Seq<char>),
}

/// Index of the first space at or after `i`, or the length if none.
pub open spec fn find_sp(s: Seq<char>, i: int) -> int
    decreases s.len() - i,
{
    if i < 0 || i >= s.len() {
        s.len() as int
    } else if s[i] == ' ' {
        i
    } else {
        find_sp(s, i + 1)
    }
}

/// The line split on single spaces, as `str::split(" ")` splits it: empty
/// tokens are kept, and splitting an empty line gives one empty token.
pub open spec fn split_sp(s: Seq<char>) -> Seq<Seq<char>>
    decreases s.len(),
{
    let j = find_sp(s, 0);
    if 0 <= j < s.len() {
        seq![s.take(j)] + split_sp(s.skip(j + 1))
    } else {
        seq![s]
    }
}

/// `find_sp` names the first space: a space-free stretch followed by a
/// space (or the end) pins it down.
proof fn lemma_find_sp(s: Seq<char>, i: int, k: int)
    requires
        0 <= i <= k <= s.len(),
        forall|j: int| i <= j < k ==> s[j] != ' ',
        k == s.len() || s[k] == ' ',
    ensures
        find_sp(s, i) == if k == s.len() {
            s.len() as int
        } else {
            k
        },
    decreases k - i,
{
    if i < k {
        lemma_find_sp(s, i + 1, k);
    }
}

/// Splitting a line that starts with a space-free token of length `k`:
/// the token comes first and the rest splits on its own.
proof fn lemma_split_head(s: Seq<char>, k: int)
    requires
        0 <= k <= s.len(),
        forall|j: int| 0 <= j < k ==> s[j] != ' ',
        k == s.len() || s[k] == ' ',
    ensures
        k == s.len() ==> split_sp(s) == seq![s],
        k < s.len() ==> split_sp(s) == seq![s.take(k)] + split_sp(s.skip(k + 1)),
{
    lemma_find_sp(s, 0, k);
}

/// The meaning of a `TYPE` token.
pub open spec fn spec_alloc_type(t: Seq<char>) -> Option<AllocType> {
    if t == "BLOCK-GROUP"@ {
        Some(AllocType::BlockGroup)
    } else if t == "METADATA-EXTENT"@ {
        Some(AllocType::Extent(ExtentType::Metadata))
    } else if t == "DATA-EXTENT"@ {
        Some(AllocType::Extent(ExtentType::Data))
    } else {
        None
    }
}

/// Whether a token is a decimal `u64`.
pub open spec fn is_u64_token(t: Seq<char>) -> bool {
    all_digits(t) && dec_val(t) <= u64::MAX
}

/// The meaning of a whole line. The `TYPE` token is judged first, then
/// the offset, then the `OP` token, then the length: the first offender
/// is reported.
pub open spec fn spec_parse_line(s: Seq<char>) -> ParsedLine {
    let toks = split_sp(s);
    if toks.len() < 3 {
        ParsedLine::BadToken(s)
    } else {
        match spec_alloc_type(toks[1]) {
            None => ParsedLine::BadToken(toks[1]),
            Some(alloc_type) => {
                if !is_u64_token(toks[2]) {
                    ParsedLine::BadToken(toks[2])
                } else {
                    let eid = AllocId { alloc_type, offset: dec_val(toks[2]) as u64 };
                    if toks[0] == "INS"@ {
                        if toks.len() < 4 {
                            ParsedLine::BadToken(s)
                        } else if !is_u64_token(toks[3]) {
                            ParsedLine::BadToken(toks[3])
                        } else {
                            ParsedLine::Change(
                                AllocChange::Insert(eid, dec_val(toks[3]) as u64),
                            )
                        }
                    } else if toks[0] == "DEL"@ {
                        ParsedLine::Change(AllocChange::Delete(eid))
                    } else {
                        ParsedLine::BadToken(toks[0])
                    }
                }
            },
        }
    }
}

/// Whether two strings hold the same characters.
fn str_eq(a: &str, b: &str) -> (r: bool)
    ensures
        r == (a@ == b@),
{
    let n = a.unicode_len();
    if n != b.unicode_len() {
        return false;
    }
    let mut i: usize = 0;
    while i < n
        invariant
            n == a@.len() == b@.len(),
            0 <= i <= n,
            forall|j: int| 0 <= j < i ==> a@[j] == b@[j],
        decreases n - i,
    {
        if a.get_char(i) != b.get_char(i) {
            return false;
        }
        i = i + 1;
    }
    proof {
        assert(a@ =~= b@);
    }
    true
}

/// Cut a line into its space-separated tokens.
fn tokenize<'a>(s: &'a str) -> (toks: Vec<&'a str>)
    ensures
        toks@.len() == split_sp(s@).len(),
        forall|i: int| 0 <= i < toks@.len() ==> #[trigger] toks@[i]@ == split_sp(s@)[i],
{
    let n = s.unicode_len();
    let mut toks: Vec<&'a str> = Vec::new();
    let mut start: usize = 0;
    let mut i: usize = 0;
    proof {
        assert(s@.skip(0) =~= s@);
    }
    while i < n
        invariant
            n == s@.len(),
            0 <= start <= i <= n,
            forall|j: int| start <= j < i ==> s@[j] != ' ',
            split_sp(s@).len() == toks@.len() + split_sp(s@.skip(start as int)).len(),
            forall|j: int|
                0 <= j < toks@.len() ==> #[trigger] toks@[j]@ == split_sp(s@)[j],
            forall|j: int|
                0 <= j < split_sp(s@.skip(start as int)).len() ==> #[trigger] split_sp(
                    s@.skip(start as int),
                )[j] == split_sp(s@)[toks@.len() + j],
        decreases n - i,
    {
        let c = s.get_char(i);
        if c == ' ' {
            let ghost old_start = start as int;
            let ghost old_toks = toks@;
            let tok = s.substring_char(start, i);
            toks.push(tok);
            start = i + 1;
            proof {
                let suffix = s@.skip(old_start);
                assert forall|j: int| 0 <= j < i - old_start implies suffix[j] != ' ' by {
                    assert(suffix[j] == s@[old_start + j]);
                }
                assert(suffix[i - old_start] == s@[i as int]);
                lemma_split_head(suffix, i - old_start);
                assert(suffix.take(i - old_start) =~= s@.subrange(old_start, i as int));
                assert(suffix.skip(i - old_start + 1) =~= s@.skip(start as int));
                let ss = split_sp(suffix);
                let ss2 = split_sp(s@.skip(start as int));
                assert(ss == seq![suffix.take(i - old_start)] + ss2);
                assert(ss[0] == suffix.take(i - old_start));
                assert(tok@ == split_sp(s@)[old_toks.len() as int]);
                assert forall|j: int| 0 <= j < toks@.len() implies #[trigger] toks@[j]@
                    == split_sp(s@)[j] by {
                    if j < old_toks.len() {
                        assert(toks@[j] == old_toks[j]);
                    }
                }
                assert forall|j: int| 0 <= j < ss2.len() implies #[trigger] ss2[j] == split_sp(
                    s@,
                )[toks@.len() + j] by {
                    assert(ss[1 + j] == ss2[j]);
                    assert(ss[1 + j] == split_sp(s@)[old_toks.len() + 1 + j]);
                }
            }
        }
        i = i + 1;
    }
    let ghost old_toks = toks@;
    let tok = s.substring_char(start, n);
    toks.push(tok);
    proof {
        let suffix = s@.skip(start as int);
        assert forall|j: int| 0 <= j < suffix.len() implies suffix[j] != ' ' by {
            assert(suffix[j] == s@[start + j]);
        }
        lemma_split_head(suffix, suffix.len() as int);
        assert(suffix =~= s@.subrange(start as int, n as int));
        assert(split_sp(suffix) == seq![suffix]);
        assert(split_sp(suffix)[0] == suffix);
        assert(split_sp(suffix)[0] == split_sp(s@)[old_toks.len() as int]);
        assert(tok@ == split_sp(s@)[old_toks.len() as int]);
        assert forall|j: int| 0 <= j < toks@.len() implies #[trigger] toks@[j]@ == split_sp(
            s@,
        )[j] by {
            if j < old_toks.len() {
                assert(toks@[j] == old_toks[j]);
            }
        }
    }
    toks
}

impl AllocType {
    /// Read a `TYPE` token; an unknown token is reported as a parse
    /// error carrying that token.
    pub fn from_str(type_str: &str) -> (r: Result<AllocType, FragViewError>)
        ensures
            match r {
                Ok(t) => spec_alloc_type(type_str@) == Some(t),
                Err(e) => spec_alloc_type(type_str@) is None && (match e {
                    FragViewError::Parse(s) => s@ == type_str@,
                    _ => false,
                }),
            },
    {
        if str_eq(type_str, "BLOCK-GROUP") {
            Ok(AllocType::BlockGroup)
        } else if str_eq(type_str, "METADATA-EXTENT") {
            Ok(AllocType::Extent(ExtentType::Metadata))
        } else if str_eq(type_str, "DATA-EXTENT") {
            Ok(AllocType::Extent(ExtentType::Data))
        } else {
            Err(FragViewError::Parse(type_str.to_owned()))
        }
    }
}

impl AllocChange {
    /// Parse one dump line.
    pub fn from_dump(dump_line: &str) -> (r: Result<AllocChange, FragViewError>)
        ensures
            match r {
                Ok(ac) => spec_parse_line(dump_line@) == ParsedLine::Change(ac),
                Err(e) => match e {
                    FragViewError::Parse(s) => spec_parse_line(dump_line@)
                        == ParsedLine::BadToken(s@),
                    _ => false,
                },
            },
    {
        let toks = tokenize(dump_line);
        if toks.len() < 3 {
            return Err(FragViewError::Parse(dump_line.to_owned()));
        }
        let alloc_type = match AllocType::from_str(toks[1]) {
            Ok(t) => t,
            Err(e) => {
                return Err(e);
            },
        };
        let offset = match parse_u64(toks[2]) {
            Some(v) => v,
            None => {
                return Err(FragViewError::Parse(toks[2].to_owned()));
            },
        };
        let eid = AllocId { alloc_type, offset };
        if str_eq(toks[0], "INS") {
            if toks.len() < 4 {
                return Err(FragViewError::Parse(dump_line.to_owned()));
            }
            let len = match parse_u64(toks[3]) {
                Some(v) => v,
                None => {
                    return Err(FragViewError::Parse(toks[3].to_owned()));
                },
            };
            Ok(AllocChange::Insert(eid, len))
        } else if str_eq(toks[0], "DEL") {
            Ok(AllocChange::Delete(eid))
        } else {
            Err(FragViewError::Parse(toks[0].to_owned()))
        }
    }
}

} // verus!
