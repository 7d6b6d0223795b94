//! The frame that requests and responses share: a head of lines, an empty
//! line, and what follows it; and the header lines of the head.

use crate::text::{
    contains, copy_range, equal, find, free_of, lemma_find_after, lemma_find_after_pair,
    lemma_find_from, lemma_find_is, lemma_occurs_bytes, lemma_split_cut, lemma_split_first,
    lemma_split_whole, lower, spec_find, spec_lower, spec_occurs_at, spec_split, split, views,
};
use vstd::prelude::*;

verus! {

/// The end of a line on the wire: carriage return, line feed.
pub open spec fn crlf() -> Seq<u8> {
    seq![13u8, 10u8]
}

/// The empty line that ends a head: two line ends in a row.
pub open spec fn blank_line() -> Seq<u8> {
    seq![13u8, 10u8, 13u8, 10u8]
}

/// What separates the name of a header from its value: a colon and a space.
pub open spec fn colon_space() -> Seq<u8> {
    seq![58u8, 32u8]
}

/// A single space, which separates the words of a first line.
pub open spec fn space() -> Seq<u8> {
    seq![32u8]
}

/// The lines one after another, each followed by the end of a line.
pub open spec fn terminated(lines: Seq<Seq<u8>>) -> Seq<u8>
    decreases lines.len(),
{
    if lines.len() == 0 {
        Seq::empty()
    } else {
        lines[0] + crlf() + terminated(lines.drop_first())
    }
}

/// The message with these lines as its head and this body: the lines, each
/// with its line end, an empty line, and the body as it is.
pub open spec fn spec_message(lines: Seq<Seq<u8>>, body: Seq<u8>) -> Seq<u8> {
    terminated(lines) + crlf() + body
}

/// The line of the header `name` with the value `value`.
pub open spec fn header_line(name: Seq<u8>, value: Seq<u8>) -> Seq<u8> {
    name + colon_space() + value
}

/// The head of a message: what stands before its first empty line, or all
/// of it where it has none.
pub open spec fn spec_head(buf: Seq<u8>) -> Seq<u8> {
    match spec_find(buf, blank_line()) {
        Some(i) => buf.take(i),
        None => buf,
    }
}

/// What follows the first empty line of a message; nothing where it has none.
pub open spec fn spec_rest(buf: Seq<u8>) -> Seq<u8> {
    match spec_find(buf, blank_line()) {
        Some(i) => buf.skip(i + 4),
        None => Seq::empty(),
    }
}

/// The lines of the head of a message. There is always a first line.
pub open spec fn spec_lines(buf: Seq<u8>) -> Seq<Seq<u8>> {
    spec_split(spec_head(buf), crlf())
}

/// The header that a line holds: the name, in lower case, is what stands
/// before the first colon and space, the value is all that follows them. A
/// line without a colon and space holds none.
pub open spec fn spec_header_of(line: Seq<u8>) -> Option<(Seq<u8>, Seq<u8>)> {
    match spec_find(line, colon_space()) {
        Some(i) => Some((spec_lower(line.take(i)), line.skip(i + 2))),
        None => None,
    }
}

/// The headers that the lines hold, by name. Where a name comes twice the
/// later line counts.
pub open spec fn spec_headers_of(lines: Seq<Seq<u8>>) -> Map<Seq<u8>, Seq<u8>>
    decreases lines.len(),
{
    if lines.len() == 0 {
        Map::empty()
    } else {
        let before = spec_headers_of(lines.drop_last());
        match spec_header_of(lines.last()) {
            Some((name, value)) => before.insert(name, value),
            None => before,
        }
    }
}

/// The value of the header `name`, whatever the case of its letters; empty
/// where there is no such header.
pub open spec fn spec_header(headers: Map<Seq<u8>, Seq<u8>>, name: Seq<u8>) -> Seq<u8> {
    if headers.contains_key(spec_lower(name)) {
        headers[spec_lower(name)]
    } else {
        Seq::empty()
    }
}

/// The map that a list of names and values stands for: a later entry
/// replaces an earlier one of the same name.
pub open spec fn pairs_map(pairs: Seq<(Vec<u8>, Vec<u8>)>) -> Map<Seq<u8>, Seq<u8>>
    decreases pairs.len(),
{
    if pairs.len() == 0 {
        Map::empty()
    } else {
        pairs_map(pairs.drop_last()).insert(pairs.last().0@, pairs.last().1@)
    }
}

/// The head of `buf`, split into its lines; what follows the empty line;
/// and whether there is an empty line.
pub fn read_message(buf: &[u8]) -> (r: (Vec<Vec<u8>>, Vec<u8>, bool))
    ensures
        views(r.0@) == spec_lines(buf@),
        r.0@.len() >= 1,
        r.1@ == spec_rest(buf@),
        r.2 == spec_find(buf@, blank_line()) is Some,
{
    let blank: [u8; 4] = [13, 10, 13, 10];
    let line_end: [u8; 2] = [13, 10];
    assert(blank@ =~= blank_line());
    assert(line_end@ =~= crlf());
    proof {
        lemma_find_from(buf@, blank_line(), 0);
    }
    let (head, rest, complete) = match find(buf, blank.as_slice()) {
        Some(i) => (copy_range(buf, 0, i), copy_range(buf, i + 4, buf.len()), true),
        None => (copy_range(buf, 0, buf.len()), Vec::new(), false),
    };
    assert(head@ =~= spec_head(buf@));
    assert(rest@ =~= spec_rest(buf@));
    let lines = split(head.as_slice(), line_end.as_slice());
    proof {
        lemma_split_first(head@, crlf());
        assert(views(lines@).len() == lines@.len());
    }
    (lines, rest, complete)
}

/// The lines of a head behind its first line.
pub(crate) fn header_lines(lines: &Vec<Vec<u8>>) -> (r: &[Vec<u8>])
    requires
        lines.len() >= 1,
    ensures
        views(r@) == views(lines@).skip(1),
{
    let r = vstd::slice::slice_subrange(lines.as_slice(), 1, lines.len());
    assert(views(r@) =~= views(lines@).skip(1));
    r
}

/// The header that a line holds, if it holds one.
pub fn header_of(line: &[u8]) -> (r: Option<(Vec<u8>, Vec<u8>)>)
    ensures
        match spec_header_of(line@) {
            Some((name, value)) => r matches Some(pair) && pair.0@ == name && pair.1@ == value,
            None => r is None,
        },
{
    let sep: [u8; 2] = [58, 32];
    assert(sep@ =~= colon_space());
    proof {
        lemma_find_from(line@, colon_space(), 0);
    }
    match find(line, sep.as_slice()) {
        Some(i) => {
            let name = lower(vstd::slice::slice_subrange(line, 0, i));
            let value = copy_range(line, i + 2, line.len());
            Some((name, value))
        },
        None => None,
    }
}

/// The headers of a message, by name.
#[derive(Debug)]
pub struct Headers {
    pairs: Vec<(Vec<u8>, Vec<u8>)>,
}

impl View for Headers {
    type V = Map<Seq<u8>, Seq<u8>>;

    closed spec fn view(&self) -> Map<Seq<u8>, Seq<u8>> {
        pairs_map(self.pairs@)
    }
}

impl Headers {
    /// The headers that the lines hold.
    pub fn parse(lines: &[Vec<u8>]) -> (headers: Headers)
        ensures
            headers@ == spec_headers_of(views(lines@)),
    {
        let ghost all = views(lines@);
        let mut pairs: Vec<(Vec<u8>, Vec<u8>)> = Vec::new();
        let mut i: usize = 0;
        assert(all.take(0) =~= Seq::<Seq<u8>>::empty());
        while i < lines.len()
            invariant
                i <= lines.len(),
                all == views(lines@),
                pairs_map(pairs@) == spec_headers_of(all.take(i as int)),
            decreases lines.len() - i,
        {
            let ghost before = pairs@;
            assert(all.take(i + 1).drop_last() =~= all.take(i as int));
            assert(all.take(i + 1).last() == lines@[i as int]@);
            match header_of(lines[i].as_slice()) {
                Some(pair) => {
                    pairs.push(pair);
                    assert(pairs@.drop_last() =~= before);
                },
                None => {},
            }
            i += 1;
        }
        assert(all.take(i as int) =~= all);
        Headers { pairs }
    }

    /// The value of the header `name`, whatever the case of its letters;
    /// `None` where there is no such header.
    pub fn get(&self, name: &[u8]) -> (r: Option<Vec<u8>>)
        ensures
            match r {
                Some(value) => self@.contains_key(spec_lower(name@)) && self@[spec_lower(name@)]
                    == value@,
                None => !self@.contains_key(spec_lower(name@)),
            },
    {
        let key = lower(name);
        let mut found: Option<usize> = None;
        let mut i: usize = 0;
        assert(self.pairs@.take(0) =~= Seq::<(Vec<u8>, Vec<u8>)>::empty());
        while i < self.pairs.len()
            invariant
                i <= self.pairs.len(),
                key@ == spec_lower(name@),
                match found {
                    Some(k) => k < i && pairs_map(self.pairs@.take(i as int)).contains_key(key@)
                        && pairs_map(self.pairs@.take(i as int))[key@] == self.pairs@[k as int].1@,
                    None => !pairs_map(self.pairs@.take(i as int)).contains_key(key@),
                },
            decreases self.pairs.len() - i,
        {
            assert(self.pairs@.take(i + 1).drop_last() =~= self.pairs@.take(i as int));
            if equal(self.pairs[i].0.as_slice(), key.as_slice()) {
                found = Some(i);
            }
            i += 1;
        }
        assert(self.pairs@.take(i as int) =~= self.pairs@);
        match found {
            Some(k) => Some(self.pairs[k].1.clone()),
            None => None,
        }
    }

    /// The value of the header `name`, whatever the case of its letters;
    /// empty where there is no such header.
    pub fn value(&self, name: &[u8]) -> (r: Vec<u8>)
        ensures
            r@ == spec_header(self@, name@),
    {
        match self.get(name) {
            Some(value) => value,
            None => Vec::new(),
        }
    }
}

/// Lines that can stand in a head and be read back from it: there is a
/// first line, no line holds a line end, and only the first may be empty.
pub open spec fn framable(lines: Seq<Seq<u8>>) -> bool {
    &&& lines.len() >= 1
    &&& forall|k: int| 0 <= k < lines.len() ==> !contains(#[trigger] lines[k], crlf())
    &&& forall|k: int| 1 <= k < lines.len() ==> (#[trigger] lines[k]).len() > 0
}

/// One more line at the end of the lines.
pub proof fn lemma_terminated_push(lines: Seq<Seq<u8>>, line: Seq<u8>)
    ensures
        terminated(lines.push(line)) == terminated(lines) + line + crlf(),
    decreases lines.len(),
{
    if lines.len() == 0 {
        assert(lines.push(line).drop_first() =~= lines);
        assert(terminated(lines.push(line)) =~= terminated(lines) + line + crlf());
    } else {
        lemma_terminated_push(lines.drop_first(), line);
        assert(lines.push(line).drop_first() =~= lines.drop_first().push(line));
        assert(terminated(lines.push(line)) =~= terminated(lines) + line + crlf());
    }
}

/// Behind a line that holds no line end, no empty line starts before the
/// line is over.
proof fn lemma_no_early_blank(a: Seq<u8>, tail: Seq<u8>, j: int)
    requires
        !contains(a, crlf()),
        0 <= j < a.len(),
    ensures
        !spec_occurs_at(a + crlf() + tail, blank_line(), j),
{
    let s = a + crlf() + tail;
    lemma_occurs_bytes(s, blank_line(), j);
    lemma_occurs_bytes(a, crlf(), j);
    assert(!spec_occurs_at(a, crlf(), j));
    if spec_occurs_at(s, blank_line(), j) {
        assert(s[j + 0] == blank_line()[0]);
        assert(s[j + 1] == blank_line()[1]);
        if j + 2 <= a.len() {
            assert(a[j + 0] == crlf()[0]);
            assert(a[j + 1] == crlf()[1]);
        } else {
            assert(s[j + 1] == crlf()[0]);
        }
    }
}

/// A message of framable lines is read back as it was made: its first
/// empty line is the one behind the last line, the lines of its head are
/// the lines, and what follows the empty line is the body.
pub proof fn lemma_frame(lines: Seq<Seq<u8>>, body: Seq<u8>)
    requires
        framable(lines),
    ensures
        terminated(lines).len() >= 2,
        spec_find(spec_message(lines, body), blank_line()) == Some(terminated(lines).len() - 2),
        spec_lines(spec_message(lines, body)) == lines,
        spec_rest(spec_message(lines, body)) == body,
    decreases lines.len(),
{
    let first = lines[0];
    let others = lines.drop_first();
    let m = spec_message(lines, body);
    if others.len() == 0 {
        assert(terminated(others) =~= Seq::<u8>::empty());
        assert(m =~= first + blank_line() + body);
        assert(m =~= first + crlf() + (crlf() + body));
        assert forall|j: int| 0 <= j < first.len() implies !spec_occurs_at(m, blank_line(), j) by {
            lemma_no_early_blank(first, crlf() + body, j);
        }
        assert(m.subrange(first.len() as int, first.len() as int + 4) =~= blank_line());
        lemma_find_is(m, blank_line(), first.len() as int);
        assert(m.take(first.len() as int) =~= first);
        assert(m.skip(first.len() as int + 4) =~= body);
        lemma_split_whole(first, crlf());
        assert(lines =~= seq![first]);
    } else {
        assert(framable(others)) by {
            assert forall|k: int| 0 <= k < others.len() implies !contains(
                #[trigger] others[k],
                crlf(),
            ) by {
                assert(others[k] == lines[k + 1]);
            }
            assert forall|k: int| 1 <= k < others.len() implies (#[trigger] others[k]).len()
                > 0 by {
                assert(others[k] == lines[k + 1]);
            }
        }
        lemma_frame(others, body);
        let inner = spec_message(others, body);
        let h = terminated(others).len() - 2;
        let at = first.len() + 2 + h;
        assert(m =~= first + crlf() + inner);
        lemma_find_from(inner, blank_line(), 0);
        // The second line is not empty and holds no line end, so the message
        // does not go on with a line end behind the first.
        let second = others[0];
        assert(second == lines[1]);
        assert(inner =~= second + crlf() + (terminated(others.drop_first()) + crlf() + body));
        assert(!(inner[0] == 13 && inner[1] == 10)) by {
            lemma_occurs_bytes(second, crlf(), 0);
            assert(!spec_occurs_at(second, crlf(), 0));
            if second.len() >= 2 {
                assert(inner[0] == second[0int + 0]);
                assert(inner[1] == second[0int + 1]);
                assert(crlf()[0] == 13 && crlf()[1] == 10);
            } else {
                assert(inner[1] == crlf()[0]);
            }
        }
        assert forall|j: int| 0 <= j < at implies !spec_occurs_at(m, blank_line(), j) by {
            lemma_occurs_bytes(m, blank_line(), j);
            if j < first.len() {
                lemma_no_early_blank(first, inner, j);
            } else if j == first.len() {
                if spec_occurs_at(m, blank_line(), j) {
                    assert(m[j + 2] == blank_line()[2]);
                    assert(m[j + 3] == blank_line()[3]);
                    assert(m[j + 2] == inner[0]);
                    assert(m[j + 3] == inner[1]);
                }
            } else if j == first.len() + 1 {
                if spec_occurs_at(m, blank_line(), j) {
                    assert(m[j + 0] == blank_line()[0]);
                    assert(m[j + 0] == crlf()[1]);
                }
            } else {
                let i = j - first.len() - 2;
                assert(!spec_occurs_at(inner, blank_line(), i));
                lemma_occurs_bytes(inner, blank_line(), i);
                if spec_occurs_at(m, blank_line(), j) {
                    assert forall|k: int| 0 <= k < 4 implies inner[i + k]
                        == #[trigger] blank_line()[k] by {
                        assert(m[j + k] == inner[i + k]);
                    }
                }
            }
        }
        assert(spec_occurs_at(m, blank_line(), at)) by {
            assert(inner.subrange(h, h + 4) == blank_line());
            assert(m.subrange(at, at + 4) =~= inner.subrange(h, h + 4));
        }
        lemma_find_is(m, blank_line(), at);
        assert(terminated(lines).len() - 2 == at);
        assert(m.take(at) =~= first + crlf() + inner.take(h));
        assert(m.skip(at + 4) =~= inner.skip(h + 4));
        lemma_find_after_pair(first, 13, 10, inner.take(h));
        assert(seq![13u8, 10u8] =~= crlf());
        lemma_split_cut(first, crlf(), inner.take(h));
        assert(lines =~= seq![first] + others);
    }
}

/// The line of a header holds that header: the name in lower case, and
/// the value. The name must hold no colon.
pub proof fn lemma_header_of_line(name: Seq<u8>, value: Seq<u8>)
    requires
        free_of(name, 58),
    ensures
        spec_header_of(header_line(name, value)) == Some((spec_lower(name), value)),
{
    let line = header_line(name, value);
    lemma_find_after(name, colon_space(), value);
    assert(line.take(name.len() as int) =~= name);
    assert(line.skip(name.len() as int + 2) =~= value);
}

/// The headers of one line.
pub proof fn lemma_headers_one(line: Seq<u8>)
    ensures
        spec_headers_of(seq![line]) == match spec_header_of(line) {
            Some((name, value)) => Map::<Seq<u8>, Seq<u8>>::empty().insert(name, value),
            None => Map::<Seq<u8>, Seq<u8>>::empty(),
        },
{
    assert(seq![line].drop_last() =~= Seq::<Seq<u8>>::empty());
    assert(spec_headers_of(seq![line].drop_last()) == Map::<Seq<u8>, Seq<u8>>::empty());
}

/// The headers of lines that follow other lines: what the later lines hold
/// replaces what the earlier ones hold under the same name.
pub proof fn lemma_headers_concat(a: Seq<Seq<u8>>, b: Seq<Seq<u8>>)
    ensures
        spec_headers_of(a + b) == spec_headers_of(a).union_prefer_right(spec_headers_of(b)),
    decreases b.len(),
{
    if b.len() == 0 {
        assert(a + b =~= a);
        assert(spec_headers_of(a + b) =~= spec_headers_of(a).union_prefer_right(
            spec_headers_of(b),
        ));
    } else {
        lemma_headers_concat(a, b.drop_last());
        assert((a + b).drop_last() =~= a + b.drop_last());
        assert((a + b).last() == b.last());
        assert(spec_headers_of(a + b) =~= spec_headers_of(a).union_prefer_right(
            spec_headers_of(b),
        ));
    }
}

/// Lower case stays as it is when it is put in lower case again.
pub proof fn lemma_lower_twice(s: Seq<u8>)
    ensures
        spec_lower(spec_lower(s)) == spec_lower(s),
{
    assert(spec_lower(spec_lower(s)) =~= spec_lower(s));
}

/// The names under which headers are held are in lower case.
pub proof fn lemma_headers_lower(lines: Seq<Seq<u8>>, name: Seq<u8>)
    requires
        spec_headers_of(lines).contains_key(name),
    ensures
        spec_lower(name) == name,
    decreases lines.len(),
{
    if lines.len() > 0 {
        match spec_header_of(lines.last()) {
            Some((n, v)) => {
                if n == name {
                    let i = spec_find(lines.last(), colon_space())->0;
                    lemma_lower_twice(lines.last().take(i));
                } else {
                    lemma_headers_lower(lines.drop_last(), name);
                }
            },
            None => {
                lemma_headers_lower(lines.drop_last(), name);
            },
        }
    }
}

/// A header is found under its name in any case of letters.
pub proof fn lemma_header_any_case(headers: Map<Seq<u8>, Seq<u8>>, a: Seq<u8>, b: Seq<u8>)
    requires
        spec_lower(a) == spec_lower(b),
    ensures
        spec_header(headers, a) == spec_header(headers, b),
{
}

} // verus!
