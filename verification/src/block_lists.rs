//! The block-list cache: the set of blocked hostnames, the sources it is
//! refreshed from, and the one line-normalization rule every source shares.
//!
//! A line contributes at most one hostname: everything from the first `#`
//! on is comment and dropped; if nothing meaningful is left the line is
//! skipped; otherwise the last whitespace-separated token is the hostname.

use vstd::prelude::*;
use vstd::utf8::{decode_utf8, valid_utf8};

use crate::error::{Error, ErrorKind};
use crate::text::utf8_to_string;

verus! {

/// Whitespace as the line rule understands it: the Unicode `White_Space`
/// set, the same property `char::is_whitespace` follows.
pub open spec fn is_ws(c: char) -> bool {
    (c as u32) == 0x09 || (c as u32) == 0x0a || (c as u32) == 0x0b || (c as u32) == 0x0c || (
    c as u32) == 0x0d || (c as u32) == 0x20 || (c as u32) == 0x85 || (c as u32) == 0xa0 || (
    c as u32) == 0x1680 || (0x2000 <= (c as u32) && (c as u32) <= 0x200a) || (c as u32) == 0x2028
        || (c as u32) == 0x2029 || (c as u32) == 0x202f || (c as u32) == 0x205f || (c as u32)
        == 0x3000
}

/// The position of the first `#` of a line, or its length when it has none.
pub open spec fn comment_start(l: Seq<char>) -> int
    decreases l.len(),
{
    if l.len() == 0 {
        0
    } else if l[0] == '#' {
        0
    } else {
        1 + comment_start(l.skip(1))
    }
}

proof fn lemma_comment_start(l: Seq<char>)
    ensures
        0 <= comment_start(l) <= l.len(),
        forall|k: int| 0 <= k < comment_start(l) ==> l[k] != '#',
        comment_start(l) < l.len() ==> l[comment_start(l)] == '#',
    decreases l.len(),
{
    if l.len() == 0 {
    } else if l[0] == '#' {
    } else {
        lemma_comment_start(l.skip(1));
        assert forall|k: int| 0 <= k < comment_start(l) implies l[k] != '#' by {
            if k > 0 {
                assert(l.skip(1)[k - 1] == l[k]);
            }
        }
        if comment_start(l) < l.len() {
            assert(l.skip(1)[comment_start(l) - 1] == l[comment_start(l)]);
        }
    }
}

/// One past the last character of the last whitespace-separated token of a
/// line, or `0` when the line holds only whitespace.
pub open spec fn token_end(l: Seq<char>) -> int
    decreases l.len(),
{
    if l.len() == 0 {
        0
    } else if !is_ws(l.last()) {
        l.len() as int
    } else {
        token_end(l.drop_last())
    }
}

/// The start of the token that ends just before position `e`.
pub open spec fn token_start(l: Seq<char>, e: int) -> int
    decreases e,
{
    if e <= 0 {
        0
    } else if is_ws(l[e - 1]) {
        e
    } else {
        token_start(l, e - 1)
    }
}

/// The hostname a block-list line contributes: comment stripped, the last
/// whitespace-separated token of what remains; `None` when nothing remains.
pub open spec fn normalize_line(l: Seq<char>) -> Option<Seq<char>> {
    let cut = l.take(comment_start(l));
    let e = token_end(cut);
    if e == 0 {
        None
    } else {
        Some(cut.subrange(token_start(cut, e), e))
    }
}

pub fn is_whitespace_char(c: char) -> (r: bool)
    ensures
        r == is_ws(c),
{
    let u: u32 = c as u32;
    u == 0x09 || u == 0x0a || u == 0x0b || u == 0x0c || u == 0x0d || u == 0x20 || u == 0x85
        || u == 0xa0 || u == 0x1680 || (0x2000 <= u && u <= 0x200a) || u == 0x2028 || u == 0x2029
        || u == 0x202f || u == 0x205f || u == 0x3000
}

/// Applies the line rule to one line of text: strips the comment, skips the
/// line if nothing meaningful remains, and otherwise returns the last
/// whitespace-separated token.
pub fn process_line(input: String) -> (r: Result<String, Error>)
    ensures
        match r {
            Ok(s) => normalize_line(input@) == Some(s@),
            Err(e) => e.kind == ErrorKind::LineIsBlank && normalize_line(input@) is None,
        },
{
    let s: &str = input.as_str();
    let n: usize = s.unicode_len();

    let mut h: usize = 0;
    while h < n && s.get_char(h) != '#'
        invariant
            s@ == input@,
            n == s@.len(),
            h <= n,
            forall|k: int| 0 <= k < h ==> s@[k] != '#',
        decreases n - h,
    {
        h += 1;
    }
    proof {
        lemma_comment_start(s@);
        if comment_start(s@) < h {
            assert(s@[comment_start(s@)] == '#');
        }
        if h < comment_start(s@) {
            assert(s@[h as int] != '#');
        }
        assert(comment_start(s@) == h);
    }
    let ghost cut: Seq<char> = s@.take(h as int);
    proof {
        assert(cut.take(h as int) =~= cut);
    }

    let mut e: usize = h;
    while e > 0 && is_whitespace_char(s.get_char(e - 1))
        invariant
            s@ == input@,
            n == s@.len(),
            e <= h <= n,
            cut == s@.take(h as int),
            token_end(cut) == token_end(cut.take(e as int)),
        decreases e,
    {
        proof {
            assert(cut.take(e as int).drop_last() =~= cut.take(e - 1));
            assert(cut.take(e as int).last() == s@[e - 1]);
        }
        e -= 1;
    }
    if e == 0 {
        proof {
            assert(cut.take(0) =~= Seq::<char>::empty());
        }
        return Err(Error::line_is_blank());
    }
    proof {
        assert(cut.take(e as int).last() == s@[e - 1]);
        assert(token_end(cut.take(e as int)) == e);
    }

    let mut st: usize = e;
    while st > 0 && !is_whitespace_char(s.get_char(st - 1))
        invariant
            s@ == input@,
            n == s@.len(),
            st <= e <= h <= n,
            cut == s@.take(h as int),
            token_start(cut, e as int) == token_start(cut, st as int),
        decreases st,
    {
        st -= 1;
    }
    proof {
        assert(token_start(cut, e as int) == st);
        assert(s@.subrange(st as int, e as int) =~= cut.subrange(st as int, e as int));
    }
    let token: &str = s.substring_char(st, e);
    Ok(token.to_owned())
}

/// The hostname one line of raw bytes contributes: the line rule applied to
/// its text, or nothing when the bytes are not valid text.
pub open spec fn line_entry_bytes(b: Seq<u8>) -> Option<Seq<char>> {
    if valid_utf8(b) {
        normalize_line(decode_utf8(b))
    } else {
        None
    }
}

/// Applies the line rule to one line of raw bytes.
pub fn process_line_bytes(input: &[u8]) -> (r: Result<String, Error>)
    ensures
        match r {
            Ok(s) => line_entry_bytes(input@) == Some(s@),
            Err(e) => line_entry_bytes(input@) is None && e.kind == (if valid_utf8(input@) {
                ErrorKind::LineIsBlank
            } else {
                ErrorKind::TextDecoding
            }),
        },
{
    let bytes: Vec<u8> = vstd::slice::slice_to_vec(input);
    match utf8_to_string(bytes) {
        Some(s) => process_line(s),
        None => Err(Error::text_decoding()),
    }
}

/// The hostnames a sequence of text lines contributes.
pub open spec fn lines_entries(ls: Seq<Seq<char>>) -> Set<Seq<char>>
    decreases ls.len(),
{
    if ls.len() == 0 {
        Set::empty()
    } else {
        let rest = lines_entries(ls.drop_last());
        match normalize_line(ls.last()) {
            Some(d) => rest.insert(d),
            None => rest,
        }
    }
}

/// The hostnames a sequence of byte lines contributes.
pub open spec fn byte_lines_entries(ls: Seq<Seq<u8>>) -> Set<Seq<char>>
    decreases ls.len(),
{
    if ls.len() == 0 {
        Set::empty()
    } else {
        let rest = byte_lines_entries(ls.drop_last());
        match line_entry_bytes(ls.last()) {
            Some(d) => rest.insert(d),
            None => rest,
        }
    }
}

/// The position of the first newline byte of a buffer, or its length when
/// it has none.
pub open spec fn newline_pos(b: Seq<u8>) -> int
    decreases b.len(),
{
    if b.len() == 0 {
        0
    } else if b[0] == 10 {
        0
    } else {
        1 + newline_pos(b.skip(1))
    }
}

proof fn lemma_newline_pos(b: Seq<u8>)
    ensures
        0 <= newline_pos(b) <= b.len(),
        forall|k: int| 0 <= k < newline_pos(b) ==> b[k] != 10,
        newline_pos(b) < b.len() ==> b[newline_pos(b)] == 10,
    decreases b.len(),
{
    if b.len() == 0 {
    } else if b[0] == 10 {
    } else {
        lemma_newline_pos(b.skip(1));
        assert forall|k: int| 0 <= k < newline_pos(b) implies b[k] != 10 by {
            if k > 0 {
                assert(b.skip(1)[k - 1] == b[k]);
            }
        }
        if newline_pos(b) < b.len() {
            assert(b.skip(1)[newline_pos(b) - 1] == b[newline_pos(b)]);
        }
    }
}

/// The complete lines of a streamed body, split on the newline byte; a
/// trailing fragment with no terminating newline is discarded.
pub open spec fn body_lines(b: Seq<u8>) -> Seq<Seq<u8>>
    decreases b.len(),
{
    if newline_pos(b) < 0 || newline_pos(b) >= b.len() {
        Seq::empty()
    } else {
        seq![b.take(newline_pos(b))] + body_lines(b.skip(newline_pos(b) + 1))
    }
}

/// The hostnames one streamed body contributes.
pub open spec fn body_entries(b: Seq<u8>) -> Set<Seq<char>> {
    byte_lines_entries(body_lines(b))
}

/// Splits a streamed body into its complete lines: bytes are fed into a
/// growing buffer that is cut at every newline byte; whatever is left when
/// the body ends is dropped.
pub fn split_lines(body: &[u8]) -> (r: Vec<Vec<u8>>)
    ensures
        r.deep_view() == body_lines(body@),
{
    let mut out: Vec<Vec<u8>> = Vec::new();
    let mut cur: Vec<u8> = Vec::new();
    let mut i: usize = 0;
    let ghost mut start: int = 0;
    let n: usize = body.len();
    proof {
        assert(body@.len() == n);
        assert(body@.skip(0) =~= body@);
        assert(out.deep_view() =~= Seq::<Seq<u8>>::empty());
        assert(out.deep_view() + body_lines(body@) =~= body_lines(body@));
    }
    while i < body.len()
        invariant
            body@.len() <= usize::MAX,
            0 <= start <= i <= body@.len(),
            cur@ == body@.subrange(start, i as int),
            forall|k: int| start <= k < i ==> body@[k] != 10,
            body_lines(body@) == out.deep_view() + body_lines(body@.skip(start)),
        decreases body@.len() - i,
    {
        let byte = body[i];
        if byte == 10 {
            let ghost out0: Seq<Seq<u8>> = out.deep_view();
            let ghost cur0: Seq<u8> = cur@;
            proof {
                let rest = body@.skip(start);
                lemma_newline_pos(rest);
                assert(rest[i - start] == 10);
                assert forall|k: int| 0 <= k < i - start implies rest[k] != 10 by {
                    assert(rest[k] == body@[start + k]);
                }
                if newline_pos(rest) < i - start {
                    assert(body@[start + newline_pos(rest)] != 10);
                }
                assert(newline_pos(rest) == i - start);
                assert(rest.take(i - start) =~= cur0);
                assert(rest.skip(i - start + 1) =~= body@.skip(i + 1));
                assert(newline_pos(rest) < rest.len());
                assert(body_lines(rest) == seq![rest.take(newline_pos(rest))] + body_lines(
                    rest.skip(newline_pos(rest) + 1),
                ));
                assert(body_lines(rest) =~~= seq![cur0] + body_lines(body@.skip(i + 1)));
                assert(out0.push(cur0) + body_lines(body@.skip(i + 1)) =~~= out0 + body_lines(
                    rest,
                ));
            }
            out.push(cur);
            cur = Vec::new();
            proof {
                assert(out.deep_view() =~~= out0.push(cur0));
                start = i + 1;
                assert(cur@ =~= body@.subrange(start, i + 1));
            }
        } else {
            proof {
                assert(cur@.push(body@[i as int]) =~= body@.subrange(start, i + 1));
            }
            cur.push(byte);
        }
        i += 1;
    }
    proof {
        let rest = body@.skip(start);
        lemma_newline_pos(rest);
        if newline_pos(rest) < rest.len() {
            assert(body@[start + newline_pos(rest)] != 10);
        }
        assert(body_lines(rest) =~= Seq::<Seq<u8>>::empty());
        assert(out.deep_view() =~= body_lines(body@));
    }
    out
}

/// An HTTP block-list source: where to fetch one remote list.
pub struct HttpBlockList {
    pub url: String,
}

/// A file block-list source: where to read one local list.
pub struct FileBlockList {
    pub path: String,
}

/// What one source's fetch produced this refresh cycle: the raw bytes an
/// HTTP source streamed, the text lines a file source yielded, or nothing
/// because the source could not be fetched or read.
pub enum FetchOutcome {
    HttpBody(Vec<u8>),
    FileLines(Vec<String>),
    Failed,
}

/// The hostnames one fetch outcome contributes: a failed source contributes
/// nothing, and never disturbs the others.
pub open spec fn outcome_entries(f: FetchOutcome) -> Set<Seq<char>> {
    match f {
        FetchOutcome::HttpBody(b) => body_entries(b@),
        FetchOutcome::FileLines(ls) => lines_entries(ls.deep_view()),
        FetchOutcome::Failed => Set::empty(),
    }
}

/// The combined set one refresh cycle builds from its fetches.
pub open spec fn sync_entries(fs: Seq<FetchOutcome>) -> Set<Seq<char>>
    decreases fs.len(),
{
    if fs.len() == 0 {
        Set::empty()
    } else {
        sync_entries(fs.drop_last()).union(outcome_entries(fs.last()))
    }
}

/// Per-source failure is isolated: every hostname any one fetch outcome
/// contributes is in the combined set of the cycle, no matter how many of
/// the other sources failed.
pub proof fn lemma_source_isolation(fs: Seq<FetchOutcome>, i: int)
    requires
        0 <= i < fs.len(),
    ensures
        outcome_entries(fs[i]).subset_of(sync_entries(fs)),
    decreases fs.len(),
{
    if i == fs.len() - 1 {
        assert(fs.last() == fs[i]);
    } else {
        lemma_source_isolation(fs.drop_last(), i);
        assert(fs.drop_last()[i] == fs[i]);
    }
}

/// The set of hostnames a list of stored domains denotes.
pub open spec fn domains_set(doms: Seq<String>) -> Set<Seq<char>> {
    Set::new(|d: Seq<char>| exists|k: int| 0 <= k < doms.len() && doms[k]@ == d)
}

proof fn lemma_domains_set_push(doms: Seq<String>, s: String)
    ensures
        domains_set(doms.push(s)) =~= domains_set(doms).insert(s@),
{
    assert forall|d: Seq<char>| domains_set(doms.push(s)).contains(d) implies domains_set(
        doms,
    ).insert(s@).contains(d) by {
        let k = choose|k: int| 0 <= k < doms.push(s).len() && doms.push(s)[k]@ == d;
        if k < doms.len() {
            assert(doms[k]@ == d);
        }
    }
    assert forall|d: Seq<char>| domains_set(doms).insert(s@).contains(d) implies domains_set(
        doms.push(s),
    ).contains(d) by {
        if d == s@ {
            assert(doms.push(s)[doms.len() as int]@ == d);
        } else {
            let k = choose|k: int| 0 <= k < doms.len() && doms[k]@ == d;
            assert(doms.push(s)[k]@ == d);
        }
    }
}

/// The block-list cache: the published set of blocked hostnames, and the
/// sources the set is rebuilt from on every refresh cycle.
pub struct BlockLists {
    pub blocked_domains: Vec<String>,
    pub http_lists: Vec<HttpBlockList>,
    pub file_lists: Vec<FileBlockList>,
}

impl BlockLists {
    /// The set of hostnames currently published for lookup.
    pub open spec fn blocked_set(&self) -> Set<Seq<char>> {
        domains_set(self.blocked_domains@)
    }

    /// A cache with no sources: until a source is added and synced, nothing
    /// is blocked.
    pub fn new() -> (r: Self)
        ensures
            r.blocked_set() =~= Set::<Seq<char>>::empty(),
            r.blocked_domains@.len() == 0,
            r.http_lists@.len() == 0,
            r.file_lists@.len() == 0,
    {
        let blocked_domains: Vec<String> = Vec::new();
        let http_lists: Vec<HttpBlockList> = Vec::new();
        let file_lists: Vec<FileBlockList> = Vec::new();

        BlockLists { blocked_domains, http_lists, file_lists }
    }

    /// Registers one HTTP source; the published set is untouched until the
    /// next refresh cycle.
    pub fn add_http_list(&mut self, url: &str)
        ensures
            final(self).http_lists@.len() == old(self).http_lists@.len() + 1,
            final(self).http_lists@.last().url@ == url@,
            final(self).http_lists@.drop_last() == old(self).http_lists@,
            final(self).file_lists == old(self).file_lists,
            final(self).blocked_domains == old(self).blocked_domains,
    {
        self.http_lists.push(HttpBlockList { url: url.to_owned() });
        proof {
            assert(self.http_lists@.drop_last() =~= old(self).http_lists@);
        }
    }

    /// Registers one file source; the published set is untouched until the
    /// next refresh cycle.
    pub fn add_file_list(&mut self, path: &str)
        ensures
            final(self).file_lists@.len() == old(self).file_lists@.len() + 1,
            final(self).file_lists@.last().path@ == path@,
            final(self).file_lists@.drop_last() == old(self).file_lists@,
            final(self).http_lists == old(self).http_lists,
            final(self).blocked_domains == old(self).blocked_domains,
    {
        self.file_lists.push(FileBlockList { path: path.to_owned() });
        proof {
            assert(self.file_lists@.drop_last() =~= old(self).file_lists@);
        }
    }

    /// Exact-match lookup against the published set. The result is exactly
    /// membership in the set the last completed `publish` installed; a set
    /// still being built by `build_set` is a local value no reader can
    /// reach. The non-blocking discipline — a lookup never waits on a
    /// refresh, and fails open on contention — lives with the caller's
    /// lock, which Verus does not see.
    pub fn check(&self, to_check: &str) -> (r: bool)
        ensures
            r == self.blocked_set().contains(to_check@),
    {
        let key: String = to_check.to_owned();
        let mut i: usize = 0;
        while i < self.blocked_domains.len()
            invariant
                i <= self.blocked_domains@.len(),
                key@ == to_check@,
                forall|k: int| 0 <= k < i ==> self.blocked_domains@[k]@ != to_check@,
            decreases self.blocked_domains@.len() - i,
        {
            let d: &String = &self.blocked_domains[i];
            if d.eq(&key) {
                assert(self.blocked_set().contains(to_check@));
                return true;
            }
            i += 1;
        }
        assert(!self.blocked_set().contains(to_check@));
        false
    }

    /// Builds the domain list one refresh cycle produces, entirely off to
    /// the side: every complete line of every fetched source run through
    /// the line rule, failed sources skipped. Nothing shared is touched, so
    /// the slow work happens before exclusive access to the cache is taken.
    pub fn build_set(fetches: Vec<FetchOutcome>) -> (r: Vec<String>)
        ensures
            domains_set(r@) == sync_entries(fetches@),
    {
        let mut new_set: Vec<String> = Vec::new();
        let mut i: usize = 0;
        while i < fetches.len()
            invariant
                i <= fetches@.len(),
                domains_set(new_set@) == sync_entries(fetches@.take(i as int)),
            decreases fetches@.len() - i,
        {
            let ghost prev: Set<Seq<char>> = domains_set(new_set@);
            match &fetches[i] {
                FetchOutcome::HttpBody(b) => {
                    let lines: Vec<Vec<u8>> = split_lines(b.as_slice());
                    let mut j: usize = 0;
                    while j < lines.len()
                        invariant
                            j <= lines@.len(),
                            lines.deep_view() == body_lines(fetches@[i as int]->HttpBody_0@),
                            i < fetches@.len(),
                            fetches@[i as int] is HttpBody,
                            domains_set(new_set@) == prev.union(
                                byte_lines_entries(lines.deep_view().take(j as int)),
                            ),
                        decreases lines@.len() - j,
                    {
                        let ghost lpre: Seq<Seq<u8>> = lines.deep_view().take(j as int);
                        proof {
                            assert(lines.deep_view().take(j + 1).drop_last() =~= lpre);
                            assert(lines.deep_view().take(j + 1).last() == lines@[j as int]@);
                        }
                        match process_line_bytes(lines[j].as_slice()) {
                            Ok(s) => {
                                proof {
                                    lemma_domains_set_push(new_set@, s);
                                    assert(prev.union(byte_lines_entries(lpre)).insert(s@)
                                        =~= prev.union(
                                        byte_lines_entries(lines.deep_view().take(j + 1)),
                                    ));
                                }
                                new_set.push(s);
                            },
                            Err(_) => {
                                proof {
                                    assert(prev.union(byte_lines_entries(lpre)) =~= prev.union(
                                        byte_lines_entries(lines.deep_view().take(j + 1)),
                                    ));
                                }
                            },
                        }
                        j += 1;
                    }
                    proof {
                        assert(lines.deep_view().take(lines@.len() as int) =~= lines.deep_view());
                    }
                },
                FetchOutcome::FileLines(ls) => {
                    let mut j: usize = 0;
                    while j < ls.len()
                        invariant
                            j <= ls@.len(),
                            i < fetches@.len(),
                            fetches@[i as int] is FileLines,
                            ls.deep_view() == fetches@[i as int]->FileLines_0.deep_view(),
                            domains_set(new_set@) == prev.union(
                                lines_entries(ls.deep_view().take(j as int)),
                            ),
                        decreases ls@.len() - j,
                    {
                        let ghost lpre: Seq<Seq<char>> = ls.deep_view().take(j as int);
                        proof {
                            assert(ls.deep_view().take(j + 1).drop_last() =~= lpre);
                            assert(ls.deep_view().take(j + 1).last() == ls@[j as int]@);
                        }
                        let line: String = ls[j].clone();
                        match process_line(line) {
                            Ok(s) => {
                                proof {
                                    lemma_domains_set_push(new_set@, s);
                                    assert(prev.union(lines_entries(lpre)).insert(s@) =~= prev.union(
                                        lines_entries(ls.deep_view().take(j + 1)),
                                    ));
                                }
                                new_set.push(s);
                            },
                            Err(_) => {
                                proof {
                                    assert(prev.union(lines_entries(lpre)) =~= prev.union(
                                        lines_entries(ls.deep_view().take(j + 1)),
                                    ));
                                }
                            },
                        }
                        j += 1;
                    }
                    proof {
                        assert(ls.deep_view().take(ls@.len() as int) =~= ls.deep_view());
                    }
                },
                FetchOutcome::Failed => {
                    proof {
                        assert(prev.union(Set::<Seq<char>>::empty()) =~= prev);
                    }
                },
            }
            proof {
                assert(fetches@.take(i + 1).drop_last() =~= fetches@.take(i as int));
                assert(fetches@.take(i + 1).last() == fetches@[i as int]);
            }
            i += 1;
        }
        proof {
            assert(fetches@.take(fetches@.len() as int) =~= fetches@);
        }
        new_set
    }

    /// Publishes a fully built set, replacing — not merging with — the
    /// previous one wholesale. This assignment is the only step of a
    /// refresh cycle that needs exclusive access to the cache.
    pub fn publish(&mut self, new_set: Vec<String>)
        ensures
            final(self).blocked_set() == domains_set(new_set@),
            final(self).http_lists == old(self).http_lists,
            final(self).file_lists == old(self).file_lists,
    {
        self.blocked_domains = new_set;
    }

    /// One refresh cycle: builds a fresh set from what this cycle's fetches
    /// produced and only then publishes it. A source that failed contributes
    /// nothing and never aborts the pass, so the cycle always succeeds.
    pub fn sync(&mut self, fetches: Vec<FetchOutcome>) -> (r: Result<(), Error>)
        ensures
            r is Ok,
            final(self).blocked_set() == sync_entries(fetches@),
            final(self).http_lists == old(self).http_lists,
            final(self).file_lists == old(self).file_lists,
    {
        let new_set: Vec<String> = Self::build_set(fetches);
        self.publish(new_set);
        Ok(())
    }
}

} // verus!
