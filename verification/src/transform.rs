//! Transform functions over raw header text: Host rewriting, and the proof
//! that rewriting twice with one target changes nothing after the first
//! application.
//!
//! All of them scan the raw block directly, so a caller that needs a single
//! field never pays for a full parse.

use vstd::prelude::*;
use vstd::string::StringExecFns;

use crate::crlf;
use crate::crlf_at;
use crate::headers::{lemma_find_crlf_range, Headers};
use crate::text::{
    digit_run_end, digit_run_end_exec, find_crlf, find_crlf_exec, is_digit, skip_whitespace,
    skip_whitespace_exec,
};

verus! {

/// Position `i` of `s` starts a line: the very beginning of the block, or
/// the position right after a CR LF terminator.
pub open spec fn is_line_start(s: Seq<char>, i: int) -> bool {
    i == 0 || (2 <= i <= s.len() && s[i - 2] == '\r' && s[i - 1] == '\n')
}

/// The literal token `Host:` sits at position `i` of `s`.
pub open spec fn host_tag_at(s: Seq<char>, i: int) -> bool {
    0 <= i && i + 5 <= s.len() && s[i] == 'H' && s[i + 1] == 'o' && s[i + 2] == 's' && s[i + 3]
        == 't' && s[i + 4] == ':'
}

/// A rewritable Host line begins at `i`: a line start carrying the `Host:`
/// token, with a CR LF terminator somewhere after it.
pub open spec fn host_line_at(s: Seq<char>, i: int) -> bool {
    is_line_start(s, i) && host_tag_at(s, i) && find_crlf(s, i) < s.len()
}

/// Position of the first rewritable Host line at or after `from`; `s.len()`
/// when there is none.
pub open spec fn find_host(s: Seq<char>, from: int) -> int
    decreases s.len() - from,
{
    if from < 0 || from >= s.len() {
        s.len() as int
    } else if host_line_at(s, from) {
        from
    } else {
        find_host(s, from + 1)
    }
}

/// The replacement line's opening text, `Host:` followed by one space.
pub open spec fn host_prefix() -> Seq<char> {
    seq!['H', 'o', 's', 't', ':', ' ']
}

/// The Host rewrite: the text before the first Host line, then a Host line
/// holding the target, then the text after the old line's terminator.
/// `None` exactly when the block has no rewritable Host line.
pub open spec fn spec_change_host(s: Seq<char>, target: Seq<char>) -> Option<Seq<char>> {
    let i = find_host(s, 0);
    if i == s.len() {
        None
    } else {
        let k = find_crlf(s, i);
        Some(
            s.subrange(0, i) + host_prefix() + target + crlf() + s.subrange(
                k + 2,
                s.len() as int,
            ),
        )
    }
}

/// A CR LF pair at `j` bounds `find_crlf` from above.
pub proof fn lemma_find_crlf_le(s: Seq<char>, from: int, j: int)
    requires
        0 <= from <= j,
        crlf_at(s, j),
    ensures
        find_crlf(s, from) <= j,
    decreases j - from,
{
    if from < j && !(s[from] == '\r' && s[from + 1] == '\n') {
        lemma_find_crlf_le(s, from + 1, j);
    }
}

/// `find_crlf` skips no CR LF pair on the way to its result.
pub proof fn lemma_find_crlf_first(s: Seq<char>, from: int)
    requires
        0 <= from <= s.len(),
    ensures
        forall|p: int| from <= p < find_crlf(s, from) ==> !crlf_at(s, p),
    decreases s.len() - from,
{
    if from + 2 > s.len() {
        assert forall|p: int| from <= p < find_crlf(s, from) implies !crlf_at(s, p) by {
            assert(p + 2 > s.len());
        }
    } else if s[from] == '\r' && s[from + 1] == '\n' {
    } else {
        lemma_find_crlf_first(s, from + 1);
    }
}

/// `find_host` stays inside `[from, s.len()]`, lands on a Host line when one
/// exists, and skips none on the way.
pub proof fn lemma_find_host_props(s: Seq<char>, from: int)
    requires
        0 <= from <= s.len(),
    ensures
        from <= find_host(s, from) <= s.len(),
        find_host(s, from) < s.len() ==> host_line_at(s, find_host(s, from)),
        forall|j: int| from <= j < find_host(s, from) ==> !host_line_at(s, j),
    decreases s.len() - from,
{
    if from >= s.len() {
    } else if host_line_at(s, from) {
    } else {
        lemma_find_host_props(s, from + 1);
    }
}

/// A Host line at `j` bounds `find_host` from above.
pub proof fn lemma_find_host_le(s: Seq<char>, from: int, j: int)
    requires
        0 <= from <= j < s.len(),
        host_line_at(s, j),
    ensures
        find_host(s, from) <= j,
    decreases j - from,
{
    if from < j && !host_line_at(s, from) {
        lemma_find_host_le(s, from + 1, j);
    }
}

/// No character of the text is part of a line terminator, true of any
/// `host:port` target.
pub open spec fn no_line_break(target: Seq<char>) -> bool {
    forall|i: int| 0 <= i < target.len() ==> target[i] != '\r' && target[i] != '\n'
}

/// Rewriting the Host line is idempotent: a second application with the same
/// target returns the first application's output unchanged.
pub proof fn lemma_change_host_idempotent(s: Seq<char>, target: Seq<char>)
    requires
        no_line_break(target),
        spec_change_host(s, target) is Some,
    ensures
        spec_change_host(spec_change_host(s, target).unwrap(), target) == spec_change_host(
            s,
            target,
        ),
{
    let i = find_host(s, 0);
    lemma_find_host_props(s, 0);
    let k = find_crlf(s, i);
    lemma_find_crlf_range(s, i as int);
    let r = s.subrange(0, i) + host_prefix() + target + crlf() + s.subrange(k + 2, s.len() as int);
    let t = target.len() as int;
    let e = i + 6 + t;
    assert(r.len() == e + 2 + (s.len() - (k + 2)));
    assert(r[e] == '\r' && r[e + 1] == '\n');
    assert(crlf_at(r, e));
    assert forall|p: int| i <= p < e implies !crlf_at(r, p) by {
        if p < i + 6 {
            assert(r[p] == host_prefix()[p - i]);
            assert(r[p] != '\r');
        } else {
            assert(r[p] == target[p - i - 6]);
            assert(r[p] != '\r');
        }
    }
    lemma_find_crlf_le(r, i, e);
    lemma_find_crlf_first(r, i);
    lemma_find_crlf_range(r, i);
    assert(find_crlf(r, i) == e);
    assert(is_line_start(r, i));
    assert(host_tag_at(r, i));
    assert(host_line_at(r, i));
    assert forall|j: int| 0 <= j < i implies !host_line_at(r, j) by {
        assert(!host_line_at(s, j));
        if host_tag_at(r, j) && is_line_start(r, j) {
            if j + 5 <= i {
                assert(host_tag_at(s, j));
                assert(is_line_start(s, j));
                lemma_find_crlf_le(s, j, k);
                assert(host_line_at(s, j));
                assert(false);
            } else {
                assert(r[i] == 'H');
                assert(false);
            }
        }
    }
    lemma_find_host_le(r, 0, i);
    lemma_find_host_props(r, 0);
    assert(find_host(r, 0) == i);
    let r2 = r.subrange(0, i) + host_prefix() + target + crlf() + r.subrange(e + 2, r.len() as int);
    assert(r.subrange(0, i) =~= s.subrange(0, i));
    assert(r.subrange(e + 2, r.len() as int) =~= s.subrange(k + 2, s.len() as int));
    assert(r2 =~= r);
}

/// Decides whether a rewritable Host line begins at position `i`.
fn host_line_at_exec(s: &str, i: usize, n: usize) -> (r: bool)
    requires
        n == s@.len(),
        i < n,
    ensures
        r == host_line_at(s@, i as int),
{
    let line_start = i == 0 || (i >= 2 && s.get_char(i - 2) == '\r' && s.get_char(i - 1) == '\n');
    if !line_start {
        return false;
    }
    if n - i < 5 {
        return false;
    }
    let tag = s.get_char(i) == 'H' && s.get_char(i + 1) == 'o' && s.get_char(i + 2) == 's'
        && s.get_char(i + 3) == 't' && s.get_char(i + 4) == ':';
    if !tag {
        return false;
    }
    let k = find_crlf_exec(s, i);
    k < n
}

/// Executable twin of [`find_host`].
fn find_host_exec(s: &str) -> (r: usize)
    ensures
        r == find_host(s@, 0),
{
    let n = s.unicode_len();
    let mut i: usize = 0;
    while i < n
        invariant
            n == s@.len(),
            i <= n,
            find_host(s@, 0) == find_host(s@, i as int),
        decreases n - i,
    {
        if host_line_at_exec(s, i, n) {
            return i;
        }
        i = i + 1;
    }
    n
}

/// The content-length field name sits at position `i` of `s`: the token
/// `ontent-` between a `c` or `C` and an `l` or `L`, then `ength:`.  Only
/// the first letter of each word may vary in case.
pub open spec fn cl_tag_at(s: Seq<char>, i: int) -> bool {
    0 <= i && i + 15 <= s.len() && (s[i] == 'c' || s[i] == 'C') && s[i + 1] == 'o' && s[i + 2]
        == 'n' && s[i + 3] == 't' && s[i + 4] == 'e' && s[i + 5] == 'n' && s[i + 6] == 't' && s[i
        + 7] == '-' && (s[i + 8] == 'l' || s[i + 8] == 'L') && s[i + 9] == 'e' && s[i + 10] == 'n'
        && s[i + 11] == 'g' && s[i + 12] == 't' && s[i + 13] == 'h' && s[i + 14] == ':'
}

/// A full content-length match at `i`: the field name, any run of ASCII
/// whitespace, then at least one digit.
pub open spec fn cl_match_at(s: Seq<char>, i: int) -> bool {
    cl_tag_at(s, i) && {
        let j = skip_whitespace(s, i + 15);
        j < s.len() && is_digit(s[j])
    }
}

/// Position of the first content-length match at or after `from`; `s.len()`
/// when there is none.
pub open spec fn find_cl(s: Seq<char>, from: int) -> int
    decreases s.len() - from,
{
    if from < 0 || from >= s.len() {
        s.len() as int
    } else if cl_match_at(s, from) {
        from
    } else {
        find_cl(s, from + 1)
    }
}

/// Numeric value of a run of ASCII digits, most significant first.
pub open spec fn digits_val(d: Seq<char>) -> int
    decreases d.len(),
{
    if d.len() == 0 {
        0
    } else {
        digits_val(d.drop_last()) * 10 + (d.last() as u32 - '0' as u32)
    }
}

/// The extracted content length: the digit run after the first match, as a
/// number; `None` when there is no match or the number does not fit `u32`.
pub open spec fn spec_content_length(s: Seq<char>) -> Option<u32> {
    let i = find_cl(s, 0);
    if i == s.len() {
        None
    } else {
        let j = skip_whitespace(s, i + 15);
        let e = digit_run_end(s, j);
        let v = digits_val(s.subrange(j, e));
        if v <= u32::MAX {
            Some(v as u32)
        } else {
            None
        }
    }
}

/// `skip_whitespace` stays inside `[from, s.len()]`.
pub proof fn lemma_skip_whitespace_range(s: Seq<char>, from: int)
    requires
        0 <= from <= s.len(),
    ensures
        from <= skip_whitespace(s, from) <= s.len(),
    decreases s.len() - from,
{
    if from < s.len() && crate::text::is_space(s[from]) {
        lemma_skip_whitespace_range(s, from + 1);
    }
}

/// `digit_run_end` stays inside `[from, s.len()]` and delimits a run of
/// digits.
pub proof fn lemma_digit_run_props(s: Seq<char>, from: int)
    requires
        0 <= from <= s.len(),
    ensures
        from <= digit_run_end(s, from) <= s.len(),
        forall|p: int| from <= p < digit_run_end(s, from) ==> is_digit(s[p]),
    decreases s.len() - from,
{
    if from < s.len() && is_digit(s[from]) {
        lemma_digit_run_props(s, from + 1);
    }
}

/// The value of a run of digits is never negative.
proof fn lemma_digits_val_nonneg(d: Seq<char>)
    requires
        forall|p: int| 0 <= p < d.len() ==> is_digit(d[p]),
    ensures
        digits_val(d) >= 0,
    decreases d.len(),
{
    if d.len() > 0 {
        lemma_digits_val_nonneg(d.drop_last());
    }
}

/// Dropping trailing digits never increases the value of a digit run.
proof fn lemma_digits_val_prefix(d: Seq<char>, m: int)
    requires
        0 <= m <= d.len(),
        forall|p: int| 0 <= p < d.len() ==> is_digit(d[p]),
    ensures
        digits_val(d.take(m)) <= digits_val(d),
    decreases d.len() - m,
{
    if m < d.len() {
        lemma_digits_val_prefix(d, m + 1);
        let dm = d.take(m + 1);
        assert(dm.drop_last() =~= d.take(m));
        assert(forall|p: int| 0 <= p < dm.len() ==> is_digit(dm[p]));
        lemma_digits_val_nonneg(d.take(m));
        assert(digits_val(dm) == digits_val(d.take(m)) * 10 + (dm.last() as u32 - '0' as u32));
        assert(is_digit(dm.last()));
        assert(digits_val(d.take(m)) <= digits_val(dm));
    } else {
        assert(d.take(m) =~= d);
    }
}

/// Decides whether a full content-length match begins at position `i`.
fn cl_match_at_exec(s: &str, i: usize, n: usize) -> (r: bool)
    requires
        n == s@.len(),
        i < n,
    ensures
        r == cl_match_at(s@, i as int),
{
    if n - i < 15 {
        return false;
    }
    let c0 = s.get_char(i);
    if !(c0 == 'c' || c0 == 'C') {
        return false;
    }
    if !(s.get_char(i + 1) == 'o' && s.get_char(i + 2) == 'n' && s.get_char(i + 3) == 't'
        && s.get_char(i + 4) == 'e' && s.get_char(i + 5) == 'n' && s.get_char(i + 6) == 't'
        && s.get_char(i + 7) == '-') {
        return false;
    }
    let c8 = s.get_char(i + 8);
    if !(c8 == 'l' || c8 == 'L') {
        return false;
    }
    if !(s.get_char(i + 9) == 'e' && s.get_char(i + 10) == 'n' && s.get_char(i + 11) == 'g'
        && s.get_char(i + 12) == 't' && s.get_char(i + 13) == 'h' && s.get_char(i + 14) == ':') {
        return false;
    }
    let j = skip_whitespace_exec(s, i + 15);
    proof {
        lemma_skip_whitespace_range(s@, i + 15);
    }
    if j == n {
        return false;
    }
    let d = s.get_char(j);
    '0' <= d && d <= '9'
}

/// Executable twin of [`find_cl`].
fn find_cl_exec(s: &str) -> (r: usize)
    ensures
        r == find_cl(s@, 0),
{
    let n = s.unicode_len();
    let mut i: usize = 0;
    while i < n
        invariant
            n == s@.len(),
            i <= n,
            find_cl(s@, 0) == find_cl(s@, i as int),
        decreases n - i,
    {
        if cl_match_at_exec(s, i, n) {
            return i;
        }
        i = i + 1;
    }
    n
}

impl Headers {
    /// Extracts the content length announced by a raw block: the digit run
    /// after the first `content-length:` field (first letters of either
    /// case), parsed as a number.  `None` when no such field with a digit
    /// follows anywhere, or the number does not fit `u32`.
    pub fn get_content_length(raw: &String) -> (r: Option<u32>)
        ensures
            r == spec_content_length(raw@),
    {
        let s = raw.as_str();
        let n = s.unicode_len();
        let i = find_cl_exec(s);
        proof {
            lemma_find_cl_props(raw@, 0);
        }
        if i == n {
            return None;
        }
        let j = skip_whitespace_exec(s, i + 15);
        proof {
            lemma_skip_whitespace_range(raw@, i + 15);
            lemma_digit_run_props(raw@, j as int);
        }
        let e = digit_run_end_exec(s, j);
        let ghost run = raw@.subrange(j as int, e as int);
        proof {
            assert(forall|p: int| 0 <= p < run.len() ==> is_digit(run[p]));
        }
        let mut acc: u32 = 0;
        let mut p = j;
        while p < e
            invariant_except_break
                acc == digits_val(raw@.subrange(j as int, p as int)),
            invariant
                j <= p <= e <= n,
                n == raw@.len(),
                s@ == raw@,
                i == find_cl(raw@, 0),
                i < n,
                cl_match_at(raw@, i as int),
                j == skip_whitespace(raw@, i + 15),
                e == digit_run_end(raw@, j as int),
                run == raw@.subrange(j as int, e as int),
                forall|q: int| j <= q < e ==> is_digit(raw@[q]),
            ensures
                p == e && acc == digits_val(run),
            decreases e - p,
        {
            let c = s.get_char(p);
            assert(is_digit(c));
            let d: u32 = c as u32 - 48;
            proof {
                let pre = raw@.subrange(j as int, p as int);
                let ext = raw@.subrange(j as int, p + 1);
                assert(ext.drop_last() =~= pre);
                assert(ext.last() == raw@[p as int]);
            }
            if acc > (u32::MAX - d) / 10 {
                proof {
                    assert(digits_val(raw@.subrange(j as int, p + 1)) > u32::MAX);
                    lemma_digits_val_prefix(run, p + 1 - j);
                    assert(run.take(p + 1 - j) =~= raw@.subrange(j as int, p + 1));
                    assert(digits_val(run) > u32::MAX);
                }
                return None;
            }
            acc = acc * 10 + d;
            p = p + 1;
        }
        Some(acc)
    }
}

/// A character a path token may contain.
pub open spec fn is_url_char(c: char) -> bool {
    ('a' <= c && c <= 'z') || ('A' <= c && c <= 'Z') || ('0' <= c && c <= '9') || c == '_' || c
        == '-' || c == '/'
}

/// A word character: letters, digits and the underscore.
pub open spec fn is_word_char(c: char) -> bool {
    ('a' <= c && c <= 'z') || ('A' <= c && c <= 'Z') || ('0' <= c && c <= '9') || c == '_'
}

/// Position of the first slash at or after `from`; `s.len()` when there is
/// none.
pub open spec fn find_slash(s: Seq<char>, from: int) -> int
    decreases s.len() - from,
{
    if from < 0 || from >= s.len() {
        s.len() as int
    } else if s[from] == '/' {
        from
    } else {
        find_slash(s, from + 1)
    }
}

/// End of the run of path characters that starts at `from`.
pub open spec fn url_run_end(s: Seq<char>, from: int) -> int
    decreases s.len() - from,
{
    if from < 0 || from >= s.len() {
        s.len() as int
    } else if is_url_char(s[from]) {
        url_run_end(s, from + 1)
    } else {
        from
    }
}

/// Position of the first word character at or after `from`; `s.len()` when
/// there is none.
pub open spec fn find_word(s: Seq<char>, from: int) -> int
    decreases s.len() - from,
{
    if from < 0 || from >= s.len() {
        s.len() as int
    } else if is_word_char(s[from]) {
        from
    } else {
        find_word(s, from + 1)
    }
}

/// End of the run of word characters that starts at `from`.
pub open spec fn word_run_end(s: Seq<char>, from: int) -> int
    decreases s.len() - from,
{
    if from < 0 || from >= s.len() {
        s.len() as int
    } else if is_word_char(s[from]) {
        word_run_end(s, from + 1)
    } else {
        from
    }
}

/// The path token a raw block yields: the first slash anywhere in the text
/// together with the letters, digits, underscores, dashes and slashes that
/// follow it; a bare slash when the text has no slash at all.
pub open spec fn spec_get_url(s: Seq<char>) -> Seq<char> {
    let i = find_slash(s, 0);
    if i == s.len() {
        seq!['/']
    } else {
        s.subrange(i, url_run_end(s, i))
    }
}

/// The sentinel token returned when a protocol or method match is absent.
pub open spec fn sentinel() -> Seq<char> {
    seq!['O', 'P', 'T', 'I', 'O', 'N', 'S']
}

/// The method token a raw block yields: the first run of word characters
/// anywhere in the text, or the sentinel when there is none.
pub open spec fn spec_get_method(s: Seq<char>) -> Seq<char> {
    let i = find_word(s, 0);
    if i == s.len() {
        sentinel()
    } else {
        s.subrange(i, word_run_end(s, i))
    }
}

/// A slash followed by a dotted version number sits at `p`: `/`, a digit
/// run, a dot, and at least one more digit.
pub open spec fn slash_version_at(s: Seq<char>, p: int) -> bool {
    0 <= p && p + 1 < s.len() && s[p] == '/' && is_digit(s[p + 1]) && {
        let q = digit_run_end(s, p + 1);
        q + 2 <= s.len() && s[q] == '.' && is_digit(s[q + 1])
    }
}

/// End of the dotted version number that starts with the slash at `p`.
pub open spec fn version_end(s: Seq<char>, p: int) -> int {
    digit_run_end(s, digit_run_end(s, p + 1) + 1)
}

/// The literal `HTTP` sits at position `i`.
pub open spec fn http_tag_at(s: Seq<char>, i: int) -> bool {
    0 <= i && i + 4 <= s.len() && s[i] == 'H' && s[i + 1] == 'T' && s[i + 2] == 'T' && s[i + 3]
        == 'P'
}

/// A protocol token begins at `i`: `HTTP` or `HTTPS` followed by a slash and
/// a dotted version number.  The `S` form is preferred when both read.
pub open spec fn proto_match_at(s: Seq<char>, i: int) -> bool {
    http_tag_at(s, i) && ((i + 4 < s.len() && s[i + 4] == 'S' && slash_version_at(s, i + 5))
        || slash_version_at(s, i + 4))
}

/// End of the protocol token that begins at `i`.
pub open spec fn proto_end(s: Seq<char>, i: int) -> int {
    if i + 4 < s.len() && s[i + 4] == 'S' && slash_version_at(s, i + 5) {
        version_end(s, i + 5)
    } else {
        version_end(s, i + 4)
    }
}

/// Position of the first protocol token at or after `from`; `s.len()` when
/// there is none.
pub open spec fn find_proto(s: Seq<char>, from: int) -> int
    decreases s.len() - from,
{
    if from < 0 || from >= s.len() {
        s.len() as int
    } else if proto_match_at(s, from) {
        from
    } else {
        find_proto(s, from + 1)
    }
}

/// The protocol token a raw block yields, or the sentinel when none occurs.
pub open spec fn spec_get_protocol(s: Seq<char>) -> Seq<char> {
    let i = find_proto(s, 0);
    if i == s.len() {
        sentinel()
    } else {
        s.subrange(i, proto_end(s, i))
    }
}

/// `find_cl` stays inside `[from, s.len()]` and lands on a match when one
/// exists at or after `from`.
pub proof fn lemma_find_cl_props(s: Seq<char>, from: int)
    requires
        0 <= from <= s.len(),
    ensures
        from <= find_cl(s, from) <= s.len(),
        find_cl(s, from) < s.len() ==> cl_match_at(s, find_cl(s, from)),
    decreases s.len() - from,
{
    if from >= s.len() {
    } else if cl_match_at(s, from) {
    } else {
        lemma_find_cl_props(s, from + 1);
    }
}

/// `url_run_end` stays inside `[from, s.len()]`.
pub proof fn lemma_url_run_range(s: Seq<char>, from: int)
    requires
        0 <= from <= s.len(),
    ensures
        from <= url_run_end(s, from) <= s.len(),
    decreases s.len() - from,
{
    if from < s.len() && is_url_char(s[from]) {
        lemma_url_run_range(s, from + 1);
    }
}

/// `word_run_end` stays inside `[from, s.len()]`.
pub proof fn lemma_word_run_range(s: Seq<char>, from: int)
    requires
        0 <= from <= s.len(),
    ensures
        from <= word_run_end(s, from) <= s.len(),
    decreases s.len() - from,
{
    if from < s.len() && is_word_char(s[from]) {
        lemma_word_run_range(s, from + 1);
    }
}

/// Executable twin of [`find_slash`].
fn find_slash_exec(s: &str) -> (r: usize)
    ensures
        r == find_slash(s@, 0),
{
    let n = s.unicode_len();
    let mut i: usize = 0;
    while i < n
        invariant
            n == s@.len(),
            i <= n,
            find_slash(s@, 0) == find_slash(s@, i as int),
        decreases n - i,
    {
        if s.get_char(i) == '/' {
            return i;
        }
        i = i + 1;
    }
    n
}

fn is_url_char_exec(c: char) -> (r: bool)
    ensures
        r == is_url_char(c),
{
    ('a' <= c && c <= 'z') || ('A' <= c && c <= 'Z') || ('0' <= c && c <= '9') || c == '_' || c
        == '-' || c == '/'
}

fn is_word_char_exec(c: char) -> (r: bool)
    ensures
        r == is_word_char(c),
{
    ('a' <= c && c <= 'z') || ('A' <= c && c <= 'Z') || ('0' <= c && c <= '9') || c == '_'
}

/// Executable twin of [`url_run_end`].
fn url_run_end_exec(s: &str, from: usize) -> (r: usize)
    requires
        from <= s@.len(),
    ensures
        r == url_run_end(s@, from as int),
{
    let n = s.unicode_len();
    let mut i = from;
    while i < n
        invariant
            n == s@.len(),
            from <= i <= n,
            url_run_end(s@, from as int) == url_run_end(s@, i as int),
        decreases n - i,
    {
        if !is_url_char_exec(s.get_char(i)) {
            return i;
        }
        i = i + 1;
    }
    n
}

/// Executable twin of [`find_word`].
fn find_word_exec(s: &str) -> (r: usize)
    ensures
        r == find_word(s@, 0),
{
    let n = s.unicode_len();
    let mut i: usize = 0;
    while i < n
        invariant
            n == s@.len(),
            i <= n,
            find_word(s@, 0) == find_word(s@, i as int),
        decreases n - i,
    {
        if is_word_char_exec(s.get_char(i)) {
            return i;
        }
        i = i + 1;
    }
    n
}

/// Executable twin of [`word_run_end`].
fn word_run_end_exec(s: &str, from: usize) -> (r: usize)
    requires
        from <= s@.len(),
    ensures
        r == word_run_end(s@, from as int),
{
    let n = s.unicode_len();
    let mut i = from;
    while i < n
        invariant
            n == s@.len(),
            from <= i <= n,
            word_run_end(s@, from as int) == word_run_end(s@, i as int),
        decreases n - i,
    {
        if !is_word_char_exec(s.get_char(i)) {
            return i;
        }
        i = i + 1;
    }
    n
}

/// The sentinel token as a string.
fn sentinel_exec() -> (r: String)
    ensures
        r@ == sentinel(),
{
    let out = String::from_str("OPTIONS");
    proof {
        reveal_strlit("OPTIONS");
        assert(out@ =~= sentinel());
    }
    out
}

/// Decides whether a slash and a dotted version number sit at `p`.
fn slash_version_at_exec(s: &str, p: usize, n: usize) -> (r: bool)
    requires
        n == s@.len(),
        p <= n,
    ensures
        r == slash_version_at(s@, p as int),
{
    if n - p < 2 {
        return false;
    }
    if s.get_char(p) != '/' {
        return false;
    }
    let c = s.get_char(p + 1);
    if !('0' <= c && c <= '9') {
        return false;
    }
    let q = digit_run_end_exec(s, p + 1);
    proof {
        lemma_digit_run_props(s@, p + 1);
    }
    if n - q < 2 {
        return false;
    }
    if s.get_char(q) != '.' {
        return false;
    }
    let c2 = s.get_char(q + 1);
    '0' <= c2 && c2 <= '9'
}

/// End of the dotted version number whose slash sits at `p`.
fn version_end_exec(s: &str, p: usize, n: usize) -> (r: usize)
    requires
        n == s@.len(),
        slash_version_at(s@, p as int),
    ensures
        r == version_end(s@, p as int),
        p <= r <= n,
{
    let q = digit_run_end_exec(s, p + 1);
    proof {
        lemma_digit_run_props(s@, p + 1);
    }
    let e = digit_run_end_exec(s, q + 1);
    proof {
        lemma_digit_run_props(s@, q + 1);
    }
    e
}

/// Decides whether a protocol token begins at `i`.
fn proto_match_at_exec(s: &str, i: usize, n: usize) -> (r: bool)
    requires
        n == s@.len(),
        i < n,
    ensures
        r == proto_match_at(s@, i as int),
{
    if n - i < 4 {
        return false;
    }
    if !(s.get_char(i) == 'H' && s.get_char(i + 1) == 'T' && s.get_char(i + 2) == 'T'
        && s.get_char(i + 3) == 'P') {
        return false;
    }
    if i + 4 < n && s.get_char(i + 4) == 'S' && slash_version_at_exec(s, i + 5, n) {
        return true;
    }
    slash_version_at_exec(s, i + 4, n)
}

/// Executable twin of [`find_proto`].
fn find_proto_exec(s: &str) -> (r: usize)
    ensures
        r == find_proto(s@, 0),
{
    let n = s.unicode_len();
    let mut i: usize = 0;
    while i < n
        invariant
            n == s@.len(),
            i <= n,
            find_proto(s@, 0) == find_proto(s@, i as int),
        decreases n - i,
    {
        if proto_match_at_exec(s, i, n) {
            return i;
        }
        i = i + 1;
    }
    n
}

/// `find_slash`, `find_word` and `find_proto` stay inside `[from, s.len()]`
/// and land on what they search when it exists.
pub proof fn lemma_find_token_props(s: Seq<char>, from: int)
    requires
        0 <= from <= s.len(),
    ensures
        from <= find_slash(s, from) <= s.len(),
        find_slash(s, from) < s.len() ==> s[find_slash(s, from)] == '/',
        from <= find_word(s, from) <= s.len(),
        find_word(s, from) < s.len() ==> is_word_char(s[find_word(s, from)]),
        from <= find_proto(s, from) <= s.len(),
        find_proto(s, from) < s.len() ==> proto_match_at(s, find_proto(s, from)),
    decreases s.len() - from,
{
    if from < s.len() {
        lemma_find_token_props(s, from + 1);
    }
}

impl Headers {
    /// Extracts the path token of a raw block: the first slash anywhere in
    /// the text and the path characters that follow it, or a bare `/` when
    /// the text holds no slash at all.
    pub fn get_url(raw: &String) -> (r: String)
        ensures
            r@ == spec_get_url(raw@),
    {
        let s = raw.as_str();
        let n = s.unicode_len();
        let i = find_slash_exec(s);
        proof {
            lemma_find_token_props(raw@, 0);
        }
        if i == n {
            let out = String::from_str("/");
            proof {
                reveal_strlit("/");
                assert(out@ =~= seq!['/']);
            }
            return out;
        }
        proof {
            lemma_url_run_range(raw@, i as int);
        }
        let e = url_run_end_exec(s, i);
        s.substring_char(i, e).to_owned()
    }

    /// Extracts the method token of a raw block: the first run of word
    /// characters anywhere in the text, or the sentinel when there is none.
    pub fn get_method(raw: &String) -> (r: String)
        ensures
            r@ == spec_get_method(raw@),
    {
        let s = raw.as_str();
        let n = s.unicode_len();
        let i = find_word_exec(s);
        proof {
            lemma_find_token_props(raw@, 0);
        }
        if i == n {
            return sentinel_exec();
        }
        proof {
            lemma_word_run_range(raw@, i as int);
        }
        let e = word_run_end_exec(s, i);
        s.substring_char(i, e).to_owned()
    }

    /// Extracts the protocol token of a raw block: the first `HTTP` or
    /// `HTTPS` followed by a slash and a dotted version number, or the
    /// sentinel when there is none.
    pub fn get_protocol(raw: &String) -> (r: String)
        ensures
            r@ == spec_get_protocol(raw@),
    {
        let s = raw.as_str();
        let n = s.unicode_len();
        let i = find_proto_exec(s);
        proof {
            lemma_find_token_props(raw@, 0);
        }
        if i == n {
            return sentinel_exec();
        }
        let e = if i + 4 < n && s.get_char(i + 4) == 'S' && slash_version_at_exec(s, i + 5, n) {
            version_end_exec(s, i + 5, n)
        } else {
            version_end_exec(s, i + 4, n)
        };
        s.substring_char(i, e).to_owned()
    }
}

impl Headers {
    /// Rewrites the first Host line of a raw block so that it names `target`.
    /// Returns `None` exactly when the block has no Host line to rewrite —
    /// a Host line is never fabricated; every other line is left as it was.
    pub fn change_host(heads: String, target: &str) -> (r: Option<String>)
        ensures
            r is Some <==> spec_change_host(heads@, target@) is Some,
            r is None <==> find_host(heads@, 0) == heads@.len(),
            r is Some ==> r.unwrap()@ == spec_change_host(heads@, target@).unwrap(),
    {
        let n = heads.as_str().unicode_len();
        let i = find_host_exec(heads.as_str());
        proof {
            lemma_find_host_props(heads@, 0);
        }
        if i == n {
            return None;
        }
        let k = find_crlf_exec(heads.as_str(), i);
        proof {
            lemma_find_crlf_range(heads@, i as int);
        }
        let mut out = heads.as_str().substring_char(0, i).to_owned();
        out.append("Host: ");
        out.append(target);
        out.append("\r\n");
        out.append(heads.as_str().substring_char(k + 2, n));
        proof {
            reveal_strlit("Host: ");
            reveal_strlit("\r\n");
            assert("Host: "@ =~= host_prefix());
            assert("\r\n"@ =~= crlf());
        }
        Some(out)
    }
}

} // verus!
