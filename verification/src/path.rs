//! Request paths and route patterns: splitting into segments, literal,
//! named-parameter and trailing-wildcard matchers, and captured parameters.

use vstd::prelude::*;
use vstd::string::*;
use crate::error::GatewayError;
use crate::message::opt_view;

verus! {

/// The views of a sequence of strings.
pub open spec fn strs(v: Seq<String>) -> Seq<Seq<char>> {
    Seq::new(v.len(), |i: int| v[i]@)
}

/// Length of the leading run of characters other than `/`.
pub open spec fn run_len(s: Seq<char>) -> nat
    decreases s.len(),
{
    if s.len() == 0 || s[0] == '/' {
        0
    } else {
        1 + run_len(s.skip(1))
    }
}

/// The segments of a path: its maximal runs of characters other than `/`,
/// from left to right. Empty segments do not exist: `/a//b/` has the
/// segments `a` and `b`, and `/` has none.
pub open spec fn segments_of(s: Seq<char>) -> Seq<Seq<char>>
    decreases s.len(),
    via segments_of_decreases
{
    if s.len() == 0 {
        Seq::empty()
    } else if s[0] == '/' {
        segments_of(s.skip(1))
    } else {
        seq![s.take(run_len(s) as int)] + segments_of(s.skip(run_len(s) as int))
    }
}

#[via_fn]
proof fn segments_of_decreases(s: Seq<char>) {
    lemma_run_len_bound(s);
}

/// What is left of a path from its segment number `k` on, as it stands:
/// that segment, and everything behind it. Empty where the path has no such
/// segment.
pub open spec fn tail_from(s: Seq<char>, k: nat) -> Seq<char>
    decreases s.len(),
    via tail_from_decreases
{
    if s.len() == 0 {
        Seq::empty()
    } else if s[0] == '/' {
        tail_from(s.skip(1), k)
    } else if k == 0 {
        s
    } else {
        tail_from(s.skip(run_len(s) as int), (k - 1) as nat)
    }
}

#[via_fn]
proof fn tail_from_decreases(s: Seq<char>, k: nat) {
    lemma_run_len_bound(s);
}

/// A run that stops at `j` has length `j`.
pub proof fn lemma_run_len(s: Seq<char>, j: int)
    requires
        0 <= j <= s.len(),
        forall|k: int| 0 <= k < j ==> s[k] != '/',
        j == s.len() || s[j] == '/',
    ensures
        run_len(s) == j,
    decreases j,
{
    if j > 0 {
        let t = s.skip(1);
        assert forall|k: int| 0 <= k < j - 1 implies t[k] != '/' by {
            assert(t[k] == s[k + 1]);
        }
        lemma_run_len(t, j - 1);
    }
}

/// The leading run is within the string and holds no `/`.
pub proof fn lemma_run_len_bound(s: Seq<char>)
    ensures
        run_len(s) <= s.len(),
        forall|k: int| 0 <= k < run_len(s) ==> s[k] != '/',
        s.len() > 0 && s[0] != '/' ==> run_len(s) > 0,
    decreases s.len(),
{
    if !(s.len() == 0 || s[0] == '/') {
        let t = s.skip(1);
        lemma_run_len_bound(t);
        assert forall|k: int| 0 <= k < run_len(s) implies s[k] != '/' by {
            if k > 0 {
                assert(t[k - 1] == s[k]);
            }
        }
    }
}

/// No segment of a path is empty, and none holds a `/`.
pub proof fn lemma_segments_plain(s: Seq<char>)
    ensures
        forall|i: int|
            0 <= i < segments_of(s).len() ==> (#[trigger] segments_of(s)[i]).len() > 0,
        forall|i: int, k: int|
            0 <= i < segments_of(s).len() && 0 <= k < segments_of(s)[i].len() ==> (
            #[trigger] segments_of(s)[i][k]) != '/',
    decreases s.len(),
{
    if s.len() == 0 {
    } else if s[0] == '/' {
        lemma_segments_plain(s.skip(1));
        assert(segments_of(s) == segments_of(s.skip(1)));
    } else {
        lemma_run_len_bound(s);
        let n = run_len(s) as int;
        lemma_segments_plain(s.skip(n));
        let rest = segments_of(s.skip(n));
        let all = segments_of(s);
        assert(all == seq![s.take(n)] + rest);
        assert(all[0] == s.take(n));
        assert forall|i: int| 0 <= i < all.len() implies (#[trigger] all[i]).len() > 0 by {
            if i > 0 {
                assert(all[i] == rest[i - 1]);
            }
        }
        assert forall|i: int, k: int| 0 <= i < all.len() && 0 <= k < all[i].len() implies (
        #[trigger] all[i][k]) != '/' by {
            if i > 0 {
                assert(all[i] == rest[i - 1]);
                assert(rest[i - 1][k] != '/');
            } else {
                assert(all[0][k] == s[k]);
            }
        }
    }
}

/// Splits a path into its segments.
pub fn split_path(path: &str) -> (segs: Vec<String>)
    ensures
        strs(segs@) == segments_of(path@),
{
    let n: usize = path.unicode_len();
    let mut segs: Vec<String> = Vec::new();
    let mut i: usize = 0;
    proof {
        assert(path@.skip(0) =~= path@);
        assert(strs(segs@) + segments_of(path@.skip(0)) =~= segments_of(path@));
    }
    while i < n
        invariant
            i <= n,
            n == path@.len(),
            strs(segs@) + segments_of(path@.skip(i as int)) == segments_of(path@),
        decreases n - i,
    {
        let ghost rest = path@.skip(i as int);
        let c = path.get_char(i);
        if c == '/' {
            proof {
                assert(rest[0] == '/');
                assert(rest.skip(1) =~= path@.skip(i + 1));
            }
            i = i + 1;
        } else {
            let mut j: usize = i + 1;
            while j < n && path.get_char(j) != '/'
                invariant
                    i < j <= n,
                    n == path@.len(),
                    forall|k: int| i <= k < j ==> path@[k] != '/',
                decreases n - j,
            {
                j = j + 1;
            }
            let piece = String::from_str(path.substring_char(i, j));
            proof {
                assert forall|k: int| 0 <= k < j - i implies rest[k] != '/' by {
                    assert(rest[k] == path@[i + k]);
                }
                lemma_run_len(rest, j - i);
                assert(rest.take(j - i) =~= path@.subrange(i as int, j as int));
                assert(rest.skip(j - i) =~= path@.skip(j as int));
                let ghost before = strs(segs@);
                assert(strs(segs@.push(piece)) =~= before + seq![piece@]);
                assert((before + seq![piece@]) + segments_of(path@.skip(j as int)) =~= before + (
                seq![piece@] + segments_of(path@.skip(j as int))));
            }
            segs.push(piece);
            i = j;
        }
    }
    proof {
        assert(path@.skip(i as int) =~= Seq::<char>::empty());
        assert(strs(segs@) + Seq::<Seq<char>>::empty() =~= strs(segs@));
    }
    segs
}

/// Copies what is left of a path from its segment number `k` on.
pub fn tail_at(path: &str, k: usize) -> (tail: String)
    ensures
        tail@ == tail_from(path@, k as nat),
{
    let n: usize = path.unicode_len();
    let mut i: usize = 0;
    let mut left: usize = k;
    assert(path@.skip(0) =~= path@);
    while i < n
        invariant
            i <= n,
            n == path@.len(),
            tail_from(path@, k as nat) == tail_from(path@.skip(i as int), left as nat),
        decreases n - i,
    {
        let ghost rest = path@.skip(i as int);
        if path.get_char(i) == '/' {
            proof {
                assert(rest[0] == '/');
                assert(rest.skip(1) =~= path@.skip(i + 1));
            }
            i = i + 1;
        } else if left == 0 {
            proof {
                assert(rest[0] != '/');
                assert(rest =~= path@.subrange(i as int, n as int));
            }
            return String::from_str(path.substring_char(i, n));
        } else {
            let mut j: usize = i + 1;
            while j < n && path.get_char(j) != '/'
                invariant
                    i < j <= n,
                    n == path@.len(),
                    forall|m: int| i <= m < j ==> path@[m] != '/',
                decreases n - j,
            {
                j = j + 1;
            }
            proof {
                assert forall|m: int| 0 <= m < j - i implies rest[m] != '/' by {
                    assert(rest[m] == path@[i + m]);
                }
                lemma_run_len(rest, j - i);
                assert(rest[0] != '/');
                assert(rest.skip(j - i) =~= path@.skip(j as int));
            }
            left = left - 1;
            i = j;
        }
    }
    assert(path@.skip(i as int).len() == 0);
    String::new()
}

/// One matcher of a route pattern.
#[derive(Clone, Debug)]
pub enum Segment {
    /// Matches the segment equal to the text.
    Literal(String),
    /// Matches any segment and captures it under the name.
    Param(String),
    /// Matches the rest of the path, which may be empty.
    Wildcard,
}

/// The mathematical value of a [`Segment`].
pub enum Piece {
    Literal(Seq<char>),
    Param(Seq<char>),
    Wildcard,
}

impl View for Segment {
    type V = Piece;

    open spec fn view(&self) -> Piece {
        match self {
            Segment::Literal(text) => Piece::Literal(text@),
            Segment::Param(name) => Piece::Param(name@),
            Segment::Wildcard => Piece::Wildcard,
        }
    }
}

/// The views of a sequence of matchers.
pub open spec fn pieces(v: Seq<Segment>) -> Seq<Piece> {
    Seq::new(v.len(), |i: int| v[i]@)
}

/// What a pattern segment stands for: `*` is the wildcard, `:name` a
/// parameter called `name`, anything else a literal.
pub open spec fn piece_of(seg: Seq<char>) -> Piece {
    if seg =~= seq!['*'] {
        Piece::Wildcard
    } else if seg.len() > 0 && seg[0] == ':' {
        Piece::Param(seg.skip(1))
    } else {
        Piece::Literal(seg)
    }
}

/// The matchers that a pattern text stands for, valid or not.
pub open spec fn pieces_of(text: Seq<char>) -> Seq<Piece> {
    Seq::new(segments_of(text).len(), |i: int| piece_of(segments_of(text)[i]))
}

/// A pattern is valid when a wildcard stands nowhere but in the last place,
/// so that it has at most one.
pub open spec fn valid_pieces(p: Seq<Piece>) -> bool {
    forall|i: int| 0 <= i < p.len() && p[i] is Wildcard ==> i == p.len() - 1
}

/// Whether the pattern ends in a wildcard.
pub open spec fn has_wildcard(p: Seq<Piece>) -> bool {
    p.len() > 0 && p.last() is Wildcard
}

/// Whether one matcher accepts one segment.
pub open spec fn accepts(piece: Piece, seg: Seq<char>) -> bool {
    match piece {
        Piece::Literal(text) => text == seg,
        Piece::Param(_) => true,
        Piece::Wildcard => true,
    }
}

/// Whether a valid pattern matches the segments of a path: segment by
/// segment, with the trailing wildcard taking whatever is left.
pub open spec fn pattern_matches(p: Seq<Piece>, segs: Seq<Seq<char>>) -> bool {
    if has_wildcard(p) {
        &&& segs.len() >= p.len() - 1
        &&& forall|i: int| 0 <= i < p.len() - 1 ==> accepts(#[trigger] p[i], segs[i])
    } else {
        &&& segs.len() == p.len()
        &&& forall|i: int| 0 <= i < p.len() ==> accepts(#[trigger] p[i], segs[i])
    }
}

/// The name under which the wildcard's capture is stored.
pub open spec fn wildcard_key() -> Seq<char> {
    seq!['*']
}

/// The captures of the first `n` matchers of a matching pattern, in order:
/// each parameter with its segment, the wildcard with `rest`.
pub open spec fn captures_upto(p: Seq<Piece>, segs: Seq<Seq<char>>, rest: Seq<char>, n: int) -> Seq<
    (Seq<char>, Seq<char>),
>
    decreases n,
{
    if n <= 0 {
        Seq::empty()
    } else {
        let before = captures_upto(p, segs, rest, n - 1);
        match p[n - 1] {
            Piece::Literal(_) => before,
            Piece::Param(name) => before.push((name, segs[n - 1])),
            Piece::Wildcard => before.push((wildcard_key(), rest)),
        }
    }
}

/// All captures of a matching pattern, where `rest` is what the wildcard
/// takes.
pub open spec fn captures(p: Seq<Piece>, segs: Seq<Seq<char>>, rest: Seq<char>) -> Seq<
    (Seq<char>, Seq<char>),
> {
    captures_upto(p, segs, rest, p.len() as int)
}

/// What a trailing wildcard takes of a path: the path from the segment in
/// the wildcard's place on, as it stands.
pub open spec fn wildcard_rest(p: Seq<Piece>, path: Seq<char>) -> Seq<char> {
    if p.len() > 0 {
        tail_from(path, (p.len() - 1) as nat)
    } else {
        Seq::empty()
    }
}

/// The captures of a pattern that matches a path.
pub open spec fn path_captures(p: Seq<Piece>, path: Seq<char>) -> Seq<(Seq<char>, Seq<char>)> {
    captures(p, segments_of(path), wildcard_rest(p, path))
}

/// The value stored first under a name, if any.
pub open spec fn lookup(entries: Seq<(Seq<char>, Seq<char>)>, name: Seq<char>) -> Option<
    Seq<char>,
>
    decreases entries.len(),
{
    if entries.len() == 0 {
        None
    } else if entries[0].0 == name {
        Some(entries[0].1)
    } else {
        lookup(entries.skip(1), name)
    }
}

/// The parameters captured by one match, owned by one request.
#[derive(Clone, Debug)]
pub struct Params {
    pub entries: Vec<(String, String)>,
}

impl View for Params {
    type V = Seq<(Seq<char>, Seq<char>)>;

    open spec fn view(&self) -> Seq<(Seq<char>, Seq<char>)> {
        Seq::new(self.entries@.len(), |i: int| (self.entries@[i].0@, self.entries@[i].1@))
    }
}

impl Params {
    /// The value captured first under `name`.
    pub fn get(&self, name: &str) -> (value: Option<String>)
        ensures
            opt_view(value) == lookup(self@, name@),
    {
        let mut i: usize = 0;
        assert(self@.skip(0) =~= self@);
        while i < self.entries.len()
            invariant
                i <= self.entries@.len(),
                lookup(self@, name@) == lookup(self@.skip(i as int), name@),
            decreases self.entries@.len() - i,
        {
            assert(self@.skip(i as int)[0] == self@[i as int]);
            assert(self@.skip(i as int).skip(1) =~= self@.skip(i + 1));
            if str_equal(self.entries[i].0.as_str(), name) {
                return Some(self.entries[i].1.clone());
            }
            i = i + 1;
        }
        assert(self@.skip(i as int).len() == 0);
        None
    }
}

/// Whether two strings hold the same characters.
pub fn str_equal(a: &str, b: &str) -> (same: bool)
    ensures
        same == (a@ == b@),
{
    let n: usize = a.unicode_len();
    if n != b.unicode_len() {
        return false;
    }
    let mut i: usize = 0;
    while i < n
        invariant
            i <= n,
            n == a@.len(),
            n == b@.len(),
            forall|k: int| 0 <= k < i ==> a@[k] == b@[k],
        decreases n - i,
    {
        if a.get_char(i) != b.get_char(i) {
            return false;
        }
        i = i + 1;
    }
    assert(a@ =~= b@);
    true
}

/// A route pattern: an ordered sequence of matchers.
#[derive(Clone, Debug)]
pub struct Pattern {
    pub segments: Vec<Segment>,
}

impl View for Pattern {
    type V = Seq<Piece>;

    open spec fn view(&self) -> Seq<Piece> {
        pieces(self.segments@)
    }
}

/// Reads one pattern segment.
pub fn read_segment(seg: &str) -> (out: Segment)
    ensures
        out@ == piece_of(seg@),
{
    let n: usize = seg.unicode_len();
    if n == 1 && seg.get_char(0) == '*' {
        assert(seg@ =~= seq!['*']);
        Segment::Wildcard
    } else if n > 0 && seg.get_char(0) == ':' {
        let name = String::from_str(seg.substring_char(1, n));
        assert(seg@.subrange(1, n as int) =~= seg@.skip(1));
        Segment::Param(name)
    } else {
        Segment::Literal(String::from_str(seg))
    }
}

impl Pattern {
    /// Whether a wildcard stands nowhere but in the last place.
    pub open spec fn valid(&self) -> bool {
        valid_pieces(self@)
    }

    /// Tests whether a wildcard stands nowhere but in the last place.
    pub fn is_valid(&self) -> (out: bool)
        ensures
            out == self.valid(),
    {
        let mut i: usize = 0;
        while i < self.segments.len()
            invariant
                i <= self.segments@.len(),
                forall|k: int| 0 <= k < i && (#[trigger] self@[k]) is Wildcard ==> k == self@.len() - 1,
            decreases self.segments@.len() - i,
        {
            assert(self@[i as int] == self.segments@[i as int]@);
            match &self.segments[i] {
                Segment::Wildcard => {
                    if i + 1 < self.segments.len() {
                        return false;
                    }
                },
                _ => {},
            }
            i = i + 1;
        }
        true
    }

    /// Tests whether the pattern ends in a wildcard.
    pub fn ends_in_wildcard(&self) -> (out: bool)
        ensures
            out == has_wildcard(self@),
    {
        let n: usize = self.segments.len();
        if n == 0 {
            return false;
        }
        assert(self@[n - 1] == self.segments@[n - 1]@);
        match &self.segments[n - 1] {
            Segment::Wildcard => true,
            _ => false,
        }
    }

    /// Reads a pattern such as `/users/:userId` or `/*`. A wildcard before
    /// the last segment, and so a second wildcard, is a configuration error.
    pub fn parse(text: &str) -> (out: Result<Pattern, GatewayError>)
        ensures
            out is Ok <==> valid_pieces(pieces_of(text@)),
            out matches Ok(p) ==> p@ == pieces_of(text@) && p.valid(),
            out matches Err(e) ==> e is Configuration,
    {
        let segs = split_path(text);
        let mut out: Vec<Segment> = Vec::new();
        let mut i: usize = 0;
        while i < segs.len()
            invariant
                i <= segs@.len(),
                strs(segs@) == segments_of(text@),
                out@.len() == i,
                forall|k: int| 0 <= k < i ==> (#[trigger] out@[k])@ == pieces_of(text@)[k],
                forall|k: int|
                    0 <= k < i && (#[trigger] pieces_of(text@)[k]) is Wildcard ==> k
                        == segs@.len() - 1,
            decreases segs@.len() - i,
        {
            assert(strs(segs@)[i as int] == segs@[i as int]@);
            let seg = read_segment(segs[i].as_str());
            if i + 1 < segs.len() {
                match seg {
                    Segment::Wildcard => {
                        assert(pieces_of(text@)[i as int] is Wildcard);
                        return Err(
                            GatewayError::Configuration(
                                String::from_str("wildcard must be the last segment"),
                            ),
                        );
                    },
                    _ => {},
                }
            }
            out.push(seg);
            i = i + 1;
        }
        let p = Pattern { segments: out };
        assert(p@ =~= pieces_of(text@));
        Ok(p)
    }

    /// Matches the segments of a path against a valid pattern and collects
    /// the captures. The wildcard takes its part from `path`.
    pub fn match_segments(&self, segs: &Vec<String>, path: &str) -> (out: Option<Params>)
        requires
            self.valid(),
        ensures
            out is Some <==> pattern_matches(self@, strs(segs@)),
            out matches Some(params) ==> params@ == captures(
                self@,
                strs(segs@),
                wildcard_rest(self@, path@),
            ),
    {
        let ghost p = self@;
        let ghost s = strs(segs@);
        let ghost rest = wildcard_rest(self@, path@);
        let mut entries: Vec<(String, String)> = Vec::new();
        let mut i: usize = 0;
        let ghost mut caps: Seq<(Seq<char>, Seq<char>)> = Seq::empty();
        while i < self.segments.len()
            invariant
                i <= self.segments@.len(),
                p == self@,
                s == strs(segs@),
                rest == wildcard_rest(self@, path@),
                valid_pieces(p),
                i <= segs@.len(),
                forall|k: int| 0 <= k < i ==> accepts(#[trigger] p[k], s[k]),
                forall|k: int| 0 <= k < i ==> !((#[trigger] p[k]) is Wildcard),
                caps == captures_upto(p, s, rest, i as int),
                caps == (Params { entries })@,
            decreases self.segments@.len() - i,
        {
            assert(p[i as int] == self.segments@[i as int]@);
            match &self.segments[i] {
                Segment::Wildcard => {
                    assert(i == p.len() - 1);
                    let tail = tail_at(path, i);
                    proof {
                        caps = caps.push((wildcard_key(), tail@));
                        reveal_strlit("*");
                        assert("*"@ =~= wildcard_key());
                    }
                    entries.push((String::from_str("*"), tail));
                    assert(caps =~= (Params { entries })@);
                    return Some(Params { entries });
                },
                Segment::Param(name) => {
                    if i >= segs.len() {
                        assert(!pattern_matches(p, s));
                        return None;
                    }
                    assert(s[i as int] == segs@[i as int]@);
                    proof {
                        caps = caps.push((name@, s[i as int]));
                    }
                    entries.push((name.clone(), segs[i].clone()));
                    assert(caps =~= (Params { entries })@);
                },
                Segment::Literal(text) => {
                    if i >= segs.len() {
                        assert(!pattern_matches(p, s));
                        return None;
                    }
                    assert(s[i as int] == segs@[i as int]@);
                    if !str_equal(text.as_str(), segs[i].as_str()) {
                        assert(!accepts(p[i as int], s[i as int]));
                        assert(!pattern_matches(p, s));
                        return None;
                    }
                },
            }
            i = i + 1;
        }
        if i == segs.len() {
            assert(!has_wildcard(p));
            Some(Params { entries })
        } else {
            assert(!has_wildcard(p));
            None
        }
    }
}

/// A path that starts with `/`, a segment and then ends or goes on with `/`
/// has that segment first, followed by the segments of what is left.
pub proof fn lemma_segments_prepend(seg: Seq<char>, rest: Seq<char>)
    requires
        seg.len() > 0,
        forall|k: int| 0 <= k < seg.len() ==> seg[k] != '/',
        rest.len() == 0 || rest[0] == '/',
    ensures
        segments_of(seq!['/'] + seg + rest) == seq![seg] + segments_of(rest),
{
    let s = seq!['/'] + seg + rest;
    let t = seg + rest;
    assert(s[0] == '/');
    assert(s.skip(1) =~= t);
    assert forall|k: int| 0 <= k < seg.len() implies t[k] != '/' by {
        assert(t[k] == seg[k]);
    }
    if rest.len() > 0 {
        assert(t[seg.len() as int] == rest[0]);
    }
    lemma_run_len(t, seg.len() as int);
    assert(t[0] != '/');
    assert(t.take(seg.len() as int) =~= seg);
    assert(t.skip(seg.len() as int) =~= rest);
    assert(segments_of(s) == segments_of(t));
    assert(segments_of(t) == seq![seg] + segments_of(rest));
}

/// Appending an entry changes a lookup only where the name was not there.
pub proof fn lemma_lookup_push(
    entries: Seq<(Seq<char>, Seq<char>)>,
    entry: (Seq<char>, Seq<char>),
    name: Seq<char>,
)
    ensures
        lookup(entries.push(entry), name) == match lookup(entries, name) {
            Some(v) => Some(v),
            None => if entry.0 == name {
                Some(entry.1)
            } else {
                None
            },
        },
    decreases entries.len(),
{
    let all = entries.push(entry);
    if entries.len() == 0 {
        assert(all[0] == entry);
        assert(all.skip(1).len() == 0);
    } else {
        assert(all[0] == entries[0]);
        assert(all.skip(1) =~= entries.skip(1).push(entry));
        lemma_lookup_push(entries.skip(1), entry, name);
    }
}

/// The captures of the first `n` matchers hold a name only if one of those
/// matchers is a parameter of that name, or the wildcard where the name is
/// the wildcard's key.
pub proof fn lemma_lookup_absent(
    p: Seq<Piece>,
    segs: Seq<Seq<char>>,
    rest: Seq<char>,
    n: int,
    name: Seq<char>,
)
    requires
        0 <= n <= p.len(),
        forall|j: int| 0 <= j < n && (#[trigger] p[j]) is Param ==> p[j]->Param_0 != name,
        forall|j: int| 0 <= j < n && (#[trigger] p[j]) is Wildcard ==> name != wildcard_key(),
    ensures
        lookup(captures_upto(p, segs, rest, n), name) is None,
    decreases n,
{
    if n > 0 {
        lemma_lookup_absent(p, segs, rest, n - 1, name);
        let before = captures_upto(p, segs, rest, n - 1);
        match p[n - 1] {
            Piece::Literal(_) => {},
            Piece::Param(other) => {
                lemma_lookup_push(before, (other, segs[n - 1]), name);
            },
            Piece::Wildcard => {
                lemma_lookup_push(before, (wildcard_key(), rest), name);
            },
        }
    }
}

/// Once the captures of the first `n` matchers hold a name, those of more
/// matchers give the same value for it.
pub proof fn lemma_lookup_stable(
    p: Seq<Piece>,
    segs: Seq<Seq<char>>,
    rest: Seq<char>,
    n: int,
    m: int,
    name: Seq<char>,
)
    requires
        0 <= n <= m <= p.len(),
        lookup(captures_upto(p, segs, rest, n), name) is Some,
    ensures
        lookup(captures_upto(p, segs, rest, m), name) == lookup(captures_upto(p, segs, rest, n), name),
    decreases m - n,
{
    if n < m {
        lemma_lookup_stable(p, segs, rest, n, m - 1, name);
        let before = captures_upto(p, segs, rest, m - 1);
        match p[m - 1] {
            Piece::Literal(_) => {},
            Piece::Param(other) => {
                lemma_lookup_push(before, (other, segs[m - 1]), name);
            },
            Piece::Wildcard => {
                lemma_lookup_push(before, (wildcard_key(), rest), name);
            },
        }
    }
}

/// The value captured for a parameter is exactly the segment in its place,
/// character for character: wherever a pattern matches, and no parameter
/// before the place has the same name, looking the name up gives that segment.
pub proof fn lemma_param_captures_segment(
    p: Seq<Piece>,
    segs: Seq<Seq<char>>,
    rest: Seq<char>,
    i: int,
)
    requires
        pattern_matches(p, segs),
        0 <= i < p.len(),
        p[i] is Param,
        forall|j: int| 0 <= j < i && (#[trigger] p[j]) is Param ==> p[j]->Param_0 != p[i]->Param_0,
        forall|j: int| 0 <= j < i ==> !((#[trigger] p[j]) is Wildcard),
    ensures
        i < segs.len(),
        lookup(captures(p, segs, rest), p[i]->Param_0) == Some(segs[i]),
{
    let name = p[i]->Param_0;
    lemma_lookup_absent(p, segs, rest, i, name);
    lemma_lookup_push(captures_upto(p, segs, rest, i), (name, segs[i]), name);
    assert(captures_upto(p, segs, rest, i + 1) == captures_upto(p, segs, rest, i).push((name, segs[i])));
    lemma_lookup_stable(p, segs, rest, i + 1, p.len() as int, name);
}

/// The wildcard captures the rest of the path as it stands, under its key,
/// as the last capture.
pub proof fn lemma_wildcard_captures_rest(p: Seq<Piece>, path: Seq<char>)
    requires
        has_wildcard(p),
    ensures
        path_captures(p, path).len() > 0,
        path_captures(p, path).last() == (wildcard_key(), tail_from(path, (p.len() - 1) as nat)),
{
}

/// A path that starts with a segment is its own tail from the first
/// segment on.
pub proof fn lemma_tail_from_start(path: Seq<char>)
    requires
        path.len() > 0,
        path[0] != '/',
    ensures
        tail_from(path, 0) == path,
{
}

/// The segments that a pattern of literals names.
pub open spec fn literal_texts(p: Seq<Piece>) -> Seq<Seq<char>> {
    Seq::new(p.len(), |i: int| p[i]->Literal_0)
}

/// Whether every matcher of a pattern is a literal.
pub open spec fn all_literal(p: Seq<Piece>) -> bool {
    forall|i: int| 0 <= i < p.len() ==> (#[trigger] p[i]) is Literal
}

/// A pattern of literals matches exactly the path made of its texts, and
/// captures nothing.
pub proof fn lemma_literal_pattern(p: Seq<Piece>, segs: Seq<Seq<char>>, rest: Seq<char>)
    requires
        all_literal(p),
    ensures
        valid_pieces(p),
        !has_wildcard(p),
        pattern_matches(p, segs) <==> segs == literal_texts(p),
        captures(p, segs, rest).len() == 0,
{
    lemma_literal_captures(p, segs, rest, p.len() as int);
    if pattern_matches(p, segs) {
        assert forall|i: int| 0 <= i < p.len() implies segs[i] == literal_texts(p)[i] by {
            assert(accepts(p[i], segs[i]));
        }
        assert(segs =~= literal_texts(p));
    }
    if segs == literal_texts(p) {
        assert forall|i: int| 0 <= i < p.len() implies accepts(#[trigger] p[i], segs[i]) by {
            assert(p[i] is Literal);
        }
    }
}

/// A pattern text made of literals matches the path that is written like
/// it, and its texts are that path's segments.
pub proof fn lemma_literal_text(text: Seq<char>)
    requires
        all_literal(pieces_of(text)),
    ensures
        literal_texts(pieces_of(text)) == segments_of(text),
        pattern_matches(pieces_of(text), segments_of(text)),
{
    let p = pieces_of(text);
    let segs = segments_of(text);
    assert forall|i: int| 0 <= i < p.len() implies literal_texts(p)[i] == segs[i] by {
        assert(p[i] is Literal);
        assert(p[i] == piece_of(segs[i]));
    }
    assert(literal_texts(p) =~= segs);
    lemma_literal_pattern(p, segs, Seq::empty());
}

/// Literals capture nothing.
pub proof fn lemma_literal_captures(p: Seq<Piece>, segs: Seq<Seq<char>>, rest: Seq<char>, n: int)
    requires
        all_literal(p),
        0 <= n <= p.len(),
    ensures
        captures_upto(p, segs, rest, n).len() == 0,
    decreases n,
{
    if n > 0 {
        lemma_literal_captures(p, segs, rest, n - 1);
        assert(p[n - 1] is Literal);
    }
}

} // verus!
