//! The header model and the parser that fills it.
//!
//! A header block is split on CR LF into candidate lines.  A line contributes
//! a header exactly when it contains the colon-space separator `": "`; the
//! split point is the first colon of the line, so a name never contains a
//! colon.  The value is everything after that colon with the spaces that
//! follow the colon stripped and every ASCII uppercase letter lowered.
//! Malformed lines (the request line among them) are dropped; the raw block
//! is kept in full.

use vstd::prelude::*;
use vstd::string::StringExecFns;

use crate::text::{
    find_colon, find_colon_exec, find_crlf, find_crlf_exec, lower, lower_range, skip_spaces,
    skip_spaces_exec,
};

verus! {

/// Mathematical model of one header: an ordered name/value pair of texts.
pub ghost struct HeaderV {
    pub name: Seq<char>,
    pub value: Seq<char>,
}

/// Mathematical model of a parsed header block: the raw text and the headers
/// derived from it.
pub ghost struct HeadersV {
    pub raw: Seq<char>,
    pub list: Seq<HeaderV>,
}

/// An ordered name/value pair as it appeared in the input: the name as
/// written, with no trailing colon; the value lowercased, with no leading
/// space.
#[derive(Debug, Clone)]
pub struct Header {
    pub name: String,
    pub value: String,
}

impl View for Header {
    type V = HeaderV;

    open spec fn view(&self) -> HeaderV {
        HeaderV { name: self.name@, value: self.value@ }
    }
}

/// A parsed header block: the original unparsed text, kept in full, and the
/// ordered list of headers derived from it (duplicates preserved, order of
/// appearance kept).
#[derive(Debug, Clone)]
pub struct Headers {
    pub raw: String,
    pub list: Vec<Header>,
}

/// The view of a header list, header by header.
pub open spec fn list_view(l: Seq<Header>) -> Seq<HeaderV> {
    l.map_values(|h: Header| h@)
}

impl View for Headers {
    type V = HeadersV;

    open spec fn view(&self) -> HeadersV {
        HeadersV { raw: self.raw@, list: list_view(self.list@) }
    }
}

/// The colon-space separator sits at position `i` of `line`.
pub open spec fn sep_at(line: Seq<char>, i: int) -> bool {
    0 <= i && i + 2 <= line.len() && line[i] == ':' && line[i + 1] == ' '
}

/// The line contains the colon-space separator, and so contributes a header.
pub open spec fn has_sep(line: Seq<char>) -> bool {
    exists|i: int| sep_at(line, i)
}

/// The header contributed by one candidate line: `None` for a malformed
/// line, otherwise the first-colon split of the line.
pub open spec fn parse_line(line: Seq<char>) -> Option<HeaderV> {
    if has_sep(line) {
        let c = find_colon(line, 0);
        let v = skip_spaces(line, c + 1);
        Some(
            HeaderV {
                name: line.subrange(0, c),
                value: lower(line.subrange(v, line.len() as int)),
            },
        )
    } else {
        None
    }
}

/// `find_crlf` stays inside `[from, s.len()]` and lands on a CR LF pair when
/// one exists at or after `from`.
pub proof fn lemma_find_crlf_range(s: Seq<char>, from: int)
    requires
        0 <= from <= s.len(),
    ensures
        from <= find_crlf(s, from) <= s.len(),
        find_crlf(s, from) < s.len() ==> find_crlf(s, from) + 2 <= s.len() && s[find_crlf(
            s,
            from,
        )] == '\r' && s[find_crlf(s, from) + 1] == '\n',
    decreases s.len() - from,
{
    if from + 2 > s.len() {
    } else if s[from] == '\r' && s[from + 1] == '\n' {
    } else {
        lemma_find_crlf_range(s, from + 1);
    }
}

/// `find_colon` stays inside `[from, s.len()]`, lands on a colon when one
/// exists, and skips no colon on the way.
pub proof fn lemma_find_colon_range(s: Seq<char>, from: int)
    requires
        0 <= from <= s.len(),
    ensures
        from <= find_colon(s, from) <= s.len(),
        find_colon(s, from) < s.len() ==> s[find_colon(s, from)] == ':',
        forall|j: int| from <= j < find_colon(s, from) ==> s[j] != ':',
    decreases s.len() - from,
{
    if from >= s.len() {
    } else if s[from] == ':' {
    } else {
        lemma_find_colon_range(s, from + 1);
    }
}

/// A colon at `j` bounds `find_colon` from above.
pub proof fn lemma_find_colon_le(s: Seq<char>, from: int, j: int)
    requires
        0 <= from <= j < s.len(),
        s[j] == ':',
    ensures
        find_colon(s, from) <= j,
    decreases j - from,
{
    if from < j && s[from] != ':' {
        lemma_find_colon_le(s, from + 1, j);
    }
}

/// `skip_spaces` stays inside `[from, s.len()]`.
pub proof fn lemma_skip_spaces_range(s: Seq<char>, from: int)
    requires
        0 <= from <= s.len(),
    ensures
        from <= skip_spaces(s, from) <= s.len(),
    decreases s.len() - from,
{
    if from < s.len() && s[from] == ' ' {
        lemma_skip_spaces_range(s, from + 1);
    }
}

#[via_fn]
proof fn lines_from_decreases(s: Seq<char>, from: int) {
    if 0 <= from <= s.len() {
        lemma_find_crlf_range(s, from);
    }
}

/// The candidate lines of `s` from position `from` on: the text split on
/// CR LF, terminators dropped.
pub open spec fn lines_from(s: Seq<char>, from: int) -> Seq<Seq<char>>
    decreases s.len() - from,
        via lines_from_decreases
{
    if from < 0 || from > s.len() {
        seq![]
    } else {
        let k = find_crlf(s, from);
        if k >= s.len() {
            seq![s.subrange(from, s.len() as int)]
        } else {
            seq![s.subrange(from, k)] + lines_from(s, k + 2)
        }
    }
}

/// The headers contributed by a sequence of candidate lines, in order.
pub open spec fn parse_lines(lines: Seq<Seq<char>>) -> Seq<HeaderV>
    decreases lines.len(),
{
    if lines.len() == 0 {
        seq![]
    } else {
        match parse_line(lines[0]) {
            Some(h) => seq![h] + parse_lines(lines.drop_first()),
            None => parse_lines(lines.drop_first()),
        }
    }
}

/// The headers a raw block parses to.
pub open spec fn spec_parse(raw: Seq<char>) -> Seq<HeaderV> {
    parse_lines(lines_from(raw, 0))
}

/// The full model of parsing: the raw text kept whole, beside the headers
/// derived from it.
pub open spec fn spec_headers(raw: Seq<char>) -> HeadersV {
    HeadersV { raw: raw, list: spec_parse(raw) }
}

/// Unfolding of `parse_lines` over an explicit first line.
proof fn lemma_parse_lines_cons(l: Seq<char>, rest: Seq<Seq<char>>)
    ensures
        parse_lines(seq![l] + rest) == match parse_line(l) {
            Some(h) => seq![h] + parse_lines(rest),
            None => parse_lines(rest),
        },
{
    let all = seq![l] + rest;
    assert(all.len() >= 1);
    assert(all[0] == l);
    assert(all.drop_first() =~= rest);
}

/// Finds the colon-space separator of a line, if any.
fn find_sep_exec(line: &str) -> (r: Option<usize>)
    ensures
        r is Some <==> has_sep(line@),
        r is Some ==> sep_at(line@, r.unwrap() as int),
{
    let n = line.unicode_len();
    let mut i: usize = 0;
    while n >= 2 && i < n - 1
        invariant
            n == line@.len(),
            i <= n,
            forall|j: int| 0 <= j < i ==> !sep_at(line@, j),
        decreases n - i,
    {
        if line.get_char(i) == ':' && line.get_char(i + 1) == ' ' {
            assert(sep_at(line@, i as int));
            return Some(i);
        }
        assert(!sep_at(line@, i as int));
        i = i + 1;
    }
    assert(forall|j: int| sep_at(line@, j) ==> 0 <= j < n - 1);
    None
}

/// Parses one candidate line: `None` exactly when the line is malformed.
fn parse_line_exec(line: &str) -> (r: Option<Header>)
    ensures
        r is Some <==> parse_line(line@) is Some,
        r is Some ==> r.unwrap()@ == parse_line(line@).unwrap(),
{
    let sep = find_sep_exec(line);
    match sep {
        None => None,
        Some(si) => {
            proof {
                lemma_find_colon_le(line@, 0, si as int);
                lemma_find_colon_range(line@, 0);
            }
            let n = line.unicode_len();
            let c = find_colon_exec(line, 0);
            assert(c <= si);
            proof {
                lemma_skip_spaces_range(line@, c + 1);
            }
            let v = skip_spaces_exec(line, c + 1);
            let name = line.substring_char(0, c).to_owned();
            let value = lower_range(line, v, n);
            Some(Header { name, value })
        },
    }
}

/// Number of lines in a sequence that carry the colon-space separator.
pub open spec fn count_sep_lines(lines: Seq<Seq<char>>) -> int
    decreases lines.len(),
{
    if lines.len() == 0 {
        0
    } else {
        (if has_sep(lines[0]) {
            1int
        } else {
            0int
        }) + count_sep_lines(lines.drop_first())
    }
}

proof fn lemma_parse_lines_count(lines: Seq<Seq<char>>)
    ensures
        parse_lines(lines).len() == count_sep_lines(lines),
    decreases lines.len(),
{
    if lines.len() > 0 {
        lemma_parse_lines_count(lines.drop_first());
    }
}

/// The parser yields exactly one header per line that carries the
/// colon-space separator: a block of `n` such lines and no malformed ones
/// parses to exactly `n` headers.
pub proof fn lemma_parse_count(raw: Seq<char>)
    ensures
        spec_parse(raw).len() == count_sep_lines(lines_from(raw, 0)),
{
    lemma_parse_lines_count(lines_from(raw, 0));
}

proof fn lemma_count_all_sep(lines: Seq<Seq<char>>)
    requires
        forall|i: int| 0 <= i < lines.len() ==> has_sep(#[trigger] lines[i]),
    ensures
        count_sep_lines(lines) == lines.len(),
    decreases lines.len(),
{
    if lines.len() > 0 {
        assert(forall|i: int|
            0 <= i < lines.drop_first().len() ==> has_sep(#[trigger] lines.drop_first()[i]));
        lemma_count_all_sep(lines.drop_first());
    }
}

/// A block whose candidate lines all carry the colon-space separator parses
/// to exactly one header per line.
pub proof fn lemma_parse_count_wellformed(raw: Seq<char>)
    requires
        forall|i: int|
            0 <= i < lines_from(raw, 0).len() ==> has_sep(#[trigger] lines_from(raw, 0)[i]),
    ensures
        spec_parse(raw).len() == lines_from(raw, 0).len(),
{
    lemma_parse_count(raw);
    lemma_count_all_sep(lines_from(raw, 0));
}

/// The model invariant of one header: its name is colon-free.
pub open spec fn name_colon_free(h: HeaderV) -> bool {
    forall|p: int| 0 <= p < h.name.len() ==> h.name[p] != ':'
}

proof fn lemma_parse_line_colon_free(line: Seq<char>)
    ensures
        parse_line(line) is Some ==> name_colon_free(parse_line(line).unwrap()),
{
    if has_sep(line) {
        let i = choose|i: int| sep_at(line, i);
        lemma_find_colon_le(line, 0, i);
        lemma_find_colon_range(line, 0);
    }
}

proof fn lemma_parse_lines_colon_free(lines: Seq<Seq<char>>)
    ensures
        forall|i: int|
            0 <= i < parse_lines(lines).len() ==> name_colon_free(
                #[trigger] parse_lines(lines)[i],
            ),
    decreases lines.len(),
{
    if lines.len() > 0 {
        lemma_parse_lines_colon_free(lines.drop_first());
        lemma_parse_line_colon_free(lines[0]);
        let rest = parse_lines(lines.drop_first());
        match parse_line(lines[0]) {
            Some(h) => {
                assert forall|i: int| 0 <= i < parse_lines(lines).len() implies name_colon_free(
                    #[trigger] parse_lines(lines)[i],
                ) by {
                    if i == 0 {
                        assert(parse_lines(lines)[0] == h);
                    } else {
                        assert(parse_lines(lines)[i] == rest[i - 1]);
                    }
                }
            },
            None => {
                assert(parse_lines(lines) == rest);
            },
        }
    }
}

/// Every header a block parses to keeps the model invariant: the split
/// point is the line's first colon, so no parsed name contains one.
pub proof fn lemma_parse_names_colon_free(raw: Seq<char>)
    ensures
        forall|i: int|
            0 <= i < spec_parse(raw).len() ==> name_colon_free(#[trigger] spec_parse(raw)[i]),
{
    lemma_parse_lines_colon_free(lines_from(raw, 0));
}

/// Parsing is idempotent: the raw block kept by a parse re-parses to the
/// very same list, because the block is retained unchanged.
pub proof fn lemma_parse_idempotent(raw: Seq<char>)
    ensures
        spec_headers(spec_headers(raw).raw) == spec_headers(raw),
{
}

impl Header {
    /// The header's one-line form: the name, a colon and a space, then the
    /// value.
    pub fn to_text(&self) -> (r: String)
        ensures
            r@ == self.name@ + seq![':', ' '] + self.value@,
    {
        let mut out = self.name.clone();
        out.append(": ");
        out.append(self.value.as_str());
        proof {
            reveal_strlit(": ");
            assert(out@ =~= self.name@ + seq![':', ' '] + self.value@);
        }
        out
    }
}

/// Error of the byte-input parser: the bytes were not valid UTF-8 text.
#[derive(Debug, Clone, Copy, PartialEq, Eq, Structural)]
pub struct DecodeError;

/// Relies on `core::str::from_utf8`: it succeeds exactly on valid UTF-8
/// input and returns the text those bytes encode.
#[verifier::external_body]
pub(crate) fn decode_utf8_exec(bytes: &Vec<u8>) -> (r: Option<String>)
    ensures
        r is Some <==> vstd::utf8::valid_utf8(bytes@),
        r is Some ==> r.unwrap()@ == vstd::utf8::decode_utf8(bytes@),
{
    match core::str::from_utf8(bytes.as_slice()) {
        Ok(s) => Some(s.to_owned()),
        Err(_) => None,
    }
}

impl Headers {
    /// Parses a raw header block.  Never fails: malformed lines are dropped
    /// from the list, and the raw text is retained in full.
    pub fn from_string(raw: String) -> (res: Headers)
        ensures
            res@ == spec_headers(raw@),
    {
        let n = raw.as_str().unicode_len();
        let mut list: Vec<Header> = Vec::new();
        let mut pos: usize = 0;
        loop
            invariant_except_break
                spec_parse(raw@) == list_view(list@) + parse_lines(lines_from(raw@, pos as int)),
            invariant
                pos <= n,
                n == raw@.len(),
            ensures
                spec_parse(raw@) == list_view(list@),
            decreases n - pos,
        {
            let ghost pos0 = pos as int;
            let k = find_crlf_exec(raw.as_str(), pos);
            proof {
                lemma_find_crlf_range(raw@, pos0);
            }
            let line = raw.as_str().substring_char(pos, k);
            let ghost lseq = raw@.subrange(pos0, k as int);
            let parsed = parse_line_exec(line);
            let ghost old_list = list@;
            if let Some(h) = parsed {
                list.push(h);
                assert(list_view(list@) =~= list_view(old_list).push(h@));
            }
            if k == n {
                proof {
                    assert(lines_from(raw@, pos0) =~= seq![lseq]);
                    assert(seq![lseq] =~= seq![lseq] + Seq::<Seq<char>>::empty());
                    lemma_parse_lines_cons(lseq, Seq::<Seq<char>>::empty());
                    assert(parse_lines(Seq::<Seq<char>>::empty()) =~= Seq::<HeaderV>::empty());
                    assert(spec_parse(raw@) =~= list_view(list@));
                }
                break;
            }
            proof {
                assert(lines_from(raw@, pos0) =~= seq![lseq] + lines_from(raw@, k + 2));
                lemma_parse_lines_cons(lseq, lines_from(raw@, k + 2));
                assert(list_view(list@) + parse_lines(lines_from(raw@, k + 2)) =~= list_view(
                    old_list,
                ) + parse_lines(lines_from(raw@, pos0)));
            }
            pos = k + 2;
        }
        Headers { raw, list }
    }

    /// Parses a header block given as bytes.  Fails exactly when the bytes
    /// are not valid UTF-8 text; otherwise delegates to [`Headers::from_string`].
    pub fn from_bytes(heads: &Vec<u8>) -> (r: Result<Headers, DecodeError>)
        ensures
            r is Ok <==> vstd::utf8::valid_utf8(heads@),
            r is Ok ==> r.unwrap()@ == spec_headers(vstd::utf8::decode_utf8(heads@)),
    {
        match decode_utf8_exec(heads) {
            Some(s) => Ok(Headers::from_string(s)),
            None => Err(DecodeError),
        }
    }
}

} // verus!
