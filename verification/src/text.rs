//! Splitting text on a separator, and the line format of the record files.

use vstd::prelude::*;

verus! {

/// The position of the first `sep` in `s`, or `s.len()` where there is none.
pub open spec fn first_index(s: Seq<char>, sep: char) -> int
    decreases s.len(),
{
    if s.len() == 0 || s[0] == sep {
        0
    } else {
        1 + first_index(s.drop_first(), sep)
    }
}

/// The pieces of `s` between occurrences of `sep`. There is always at least
/// one piece, and no piece holds `sep`.
pub open spec fn split_on(s: Seq<char>, sep: char) -> Seq<Seq<char>>
    decreases s.len(),
{
    let k = first_index(s, sep);
    if 0 <= k < s.len() {
        seq![s.take(k)] + split_on(s.skip(k + 1), sep)
    } else {
        seq![s]
    }
}

/// The lines of a record file: the pieces between newlines, without the
/// empty piece that follows a final newline.
pub open spec fn lines_of(text: Seq<char>) -> Seq<Seq<char>> {
    let pieces = split_on(text, '\n');
    if pieces.last().len() == 0 {
        pieces.drop_last()
    } else {
        pieces
    }
}

/// Each line followed by a newline, one after the other.
pub open spec fn joined_lines(lines: Seq<Seq<char>>) -> Seq<char>
    decreases lines.len(),
{
    if lines.len() == 0 {
        Seq::empty()
    } else {
        lines[0].push('\n') + joined_lines(lines.drop_first())
    }
}

/// `s` holds no newline.
pub open spec fn single_line(s: Seq<char>) -> bool {
    forall|i: int| 0 <= i < s.len() ==> s[i] != '\n'
}

/// `first_index` is the least position that holds `sep`.
pub proof fn lemma_first_index(s: Seq<char>, sep: char)
    ensures
        0 <= first_index(s, sep) <= s.len(),
        forall|j: int| 0 <= j < first_index(s, sep) ==> s[j] != sep,
        first_index(s, sep) < s.len() ==> s[first_index(s, sep)] == sep,
    decreases s.len(),
{
    if s.len() == 0 || s[0] == sep {
    } else {
        let t = s.drop_first();
        lemma_first_index(t, sep);
        assert forall|j: int| 0 <= j < first_index(s, sep) implies s[j] != sep by {
            if j > 0 {
                assert(s[j] == t[j - 1]);
            }
        }
        if first_index(s, sep) < s.len() {
            assert(s[first_index(s, sep)] == t[first_index(t, sep)]);
        }
    }
}

/// A position that holds `sep`, or the end, with no `sep` before it, is
/// the first index.
pub proof fn lemma_first_index_is(s: Seq<char>, sep: char, k: int)
    requires
        0 <= k <= s.len(),
        forall|j: int| 0 <= j < k ==> s[j] != sep,
        k < s.len() ==> s[k] == sep,
    ensures
        first_index(s, sep) == k,
    decreases s.len(),
{
    if s.len() == 0 {
    } else if k == 0 {
    } else {
        let t = s.drop_first();
        assert(s[0] != sep);
        assert forall|j: int| 0 <= j < k - 1 implies t[j] != sep by {
            assert(t[j] == s[j + 1]);
        }
        if k - 1 < t.len() {
            assert(t[k - 1] == s[k]);
        }
        lemma_first_index_is(t, sep, k - 1);
    }
}

/// A text without `sep` is its own single piece.
pub proof fn lemma_split_whole(s: Seq<char>, sep: char)
    requires
        forall|j: int| 0 <= j < s.len() ==> s[j] != sep,
    ensures
        split_on(s, sep) == seq![s],
{
    lemma_first_index_is(s, sep, s.len() as int);
}

/// Where `head` holds no `sep`, splitting `head + sep + rest` gives `head`
/// and then the pieces of `rest`.
pub proof fn lemma_split_step(head: Seq<char>, sep: char, rest: Seq<char>)
    requires
        forall|j: int| 0 <= j < head.len() ==> head[j] != sep,
    ensures
        split_on(head.push(sep) + rest, sep) == seq![head] + split_on(rest, sep),
{
    let s = head.push(sep) + rest;
    let k = head.len() as int;
    assert forall|j: int| 0 <= j < k implies s[j] != sep by {
        assert(s[j] == head[j]);
    }
    assert(s[k] == sep);
    lemma_first_index_is(s, sep, k);
    assert(s.take(k) =~= head);
    assert(s.skip(k + 1) =~= rest);
}

/// Every split has a piece.
pub proof fn lemma_split_nonempty(s: Seq<char>, sep: char)
    ensures
        split_on(s, sep).len() >= 1,
    decreases s.len(),
{
    lemma_first_index(s, sep);
    let k = first_index(s, sep);
    if 0 <= k < s.len() {
        lemma_split_nonempty(s.skip(k + 1), sep);
    }
}

/// The characters of `s`, in a vector.
pub fn chars_of(s: &str) -> (v: Vec<char>)
    ensures
        v@ == s@,
{
    let mut v: Vec<char> = Vec::new();
    for c in it: s.chars()
        invariant
            it.seq() == s@,
            v@ == it.seq().take(it.index() as int),
    {
        v.push(c);
    }
    v
}

/// Whether two texts hold the same characters.
pub fn same_text(a: &str, b: &str) -> (r: bool)
    ensures
        r == (a@ == b@),
{
    a.to_string() == b.to_string()
}

/// The part of `s` from character `from` up to character `to`.
pub(crate) fn slice_of(s: &str, from: usize, to: usize) -> (r: String)
    requires
        from <= to <= s@.len(),
    ensures
        r@ == s@.subrange(from as int, to as int),
{
    s.substring_char(from, to).to_string()
}

/// Splits `s` at every `sep`.
pub fn split(s: &str, sep: char) -> (pieces: Vec<String>)
    ensures
        pieces.deep_view() == split_on(s@, sep),
{
    let chars = chars_of(s);
    let n: usize = chars.len();
    let mut pieces: Vec<String> = Vec::new();
    let mut start: usize = 0;
    let mut i: usize = 0;
    assert(s@.skip(0) =~= s@);
    assert(pieces.deep_view() =~= Seq::<Seq<char>>::empty());
    while i < n
        invariant
            chars@ == s@,
            n == chars.len(),
            start <= i <= n,
            forall|j: int| start <= j < i ==> s@[j] != sep,
            split_on(s@, sep) == pieces.deep_view() + split_on(s@.skip(start as int), sep),
        decreases n - i,
    {
        if chars[i] == sep {
            let piece = slice_of(s, start, i);
            proof {
                let tail = s@.skip(start as int);
                let k = i - start;
                assert forall|j: int| 0 <= j < k implies tail[j] != sep by {
                    assert(tail[j] == s@[start + j]);
                }
                assert(tail[k] == s@[i as int]);
                lemma_first_index_is(tail, sep, k);
                assert(tail.take(k) =~= s@.subrange(start as int, i as int));
                assert(tail.skip(k + 1) =~= s@.skip(i + 1));
            }
            let ghost before = pieces.deep_view();
            pieces.push(piece);
            assert(pieces.deep_view() =~= before.push(piece@));
            start = i + 1;
        }
        i += 1;
    }
    let piece = slice_of(s, start, n);
    proof {
        let tail = s@.skip(start as int);
        assert forall|j: int| 0 <= j < tail.len() implies tail[j] != sep by {
            assert(tail[j] == s@[start + j]);
        }
        lemma_split_whole(tail, sep);
        assert(tail =~= s@.subrange(start as int, n as int));
    }
    let ghost before = pieces.deep_view();
    pieces.push(piece);
    assert(pieces.deep_view() =~= before.push(piece@));
    pieces
}

/// Adding a line at the end adds it, with its newline, to the joined text.
pub proof fn lemma_joined_push(lines: Seq<Seq<char>>, line: Seq<char>)
    ensures
        joined_lines(lines.push(line)) == joined_lines(lines) + line.push('\n'),
    decreases lines.len(),
{
    let all = lines.push(line);
    if lines.len() == 0 {
        assert(all.drop_first() =~= Seq::<Seq<char>>::empty());
        assert(joined_lines(all) =~= line.push('\n') + joined_lines(all.drop_first()));
        assert(joined_lines(all) =~= joined_lines(lines) + line.push('\n'));
    } else {
        lemma_joined_push(lines.drop_first(), line);
        assert(all.drop_first() =~= lines.drop_first().push(line));
        assert(all[0] == lines[0]);
        assert(joined_lines(all) =~= joined_lines(lines) + line.push('\n'));
    }
}

/// Splitting joined lines gives the lines back, and one empty piece after
/// the last newline.
pub proof fn lemma_split_joined(lines: Seq<Seq<char>>)
    requires
        forall|i: int| 0 <= i < lines.len() ==> single_line(#[trigger] lines[i]),
    ensures
        split_on(joined_lines(lines), '\n') == lines.push(Seq::empty()),
    decreases lines.len(),
{
    if lines.len() == 0 {
        lemma_split_whole(Seq::<char>::empty(), '\n');
        assert(lines.push(Seq::empty()) =~= seq![Seq::<char>::empty()]);
    } else {
        let rest = lines.drop_first();
        assert forall|i: int| 0 <= i < rest.len() implies single_line(#[trigger] rest[i]) by {
            assert(rest[i] == lines[i + 1]);
        }
        lemma_split_joined(rest);
        assert(single_line(lines[0]));
        lemma_split_step(lines[0], '\n', joined_lines(rest));
        assert(seq![lines[0]] + rest.push(Seq::empty()) =~= lines.push(Seq::empty()));
    }
}

/// Lines that are written out and read again are the same lines.
pub proof fn lemma_lines_round_trip(lines: Seq<Seq<char>>)
    requires
        forall|i: int| 0 <= i < lines.len() ==> single_line(#[trigger] lines[i]),
    ensures
        lines_of(joined_lines(lines)) == lines,
{
    lemma_split_joined(lines);
    let pieces = lines.push(Seq::<char>::empty());
    assert(pieces.last().len() == 0);
    assert(pieces.drop_last() =~= lines);
}

/// No piece of a split holds the separator.
pub proof fn lemma_split_clean(s: Seq<char>, sep: char)
    ensures
        forall|i: int, j: int|
            0 <= i < split_on(s, sep).len() && 0 <= j < split_on(s, sep)[i].len() ==> (
            #[trigger] split_on(s, sep)[i][j]) != sep,
    decreases s.len(),
{
    lemma_first_index(s, sep);
    let k = first_index(s, sep);
    if 0 <= k < s.len() {
        let rest = split_on(s.skip(k + 1), sep);
        lemma_split_clean(s.skip(k + 1), sep);
        assert forall|i: int, j: int|
            0 <= i < split_on(s, sep).len() && 0 <= j < split_on(s, sep)[i].len() implies (
        #[trigger] split_on(s, sep)[i][j]) != sep by {
            if i == 0 {
                assert(split_on(s, sep)[0] == s.take(k));
                assert(s.take(k)[j] == s[j]);
            } else {
                assert(split_on(s, sep)[i] == rest[i - 1]);
            }
        }
    }
}

/// Joining the pieces of a split at newlines gives the text back, with a
/// newline after it.
pub proof fn lemma_joined_split(s: Seq<char>)
    ensures
        joined_lines(split_on(s, '\n')) == s.push('\n'),
    decreases s.len(),
{
    lemma_first_index(s, '\n');
    let k = first_index(s, '\n');
    let pieces = split_on(s, '\n');
    if 0 <= k < s.len() {
        let rest = s.skip(k + 1);
        lemma_joined_split(rest);
        assert(pieces.drop_first() =~= split_on(rest, '\n'));
        assert(pieces[0] == s.take(k));
        assert(s.take(k).push('\n') + rest.push('\n') =~= s.push('\n'));
        assert(joined_lines(pieces) == pieces[0].push('\n') + joined_lines(pieces.drop_first()));
    } else {
        assert(pieces.drop_first() =~= Seq::<Seq<char>>::empty());
        assert(s.push('\n') + Seq::<char>::empty() =~= s.push('\n'));
        assert(joined_lines(pieces) == pieces[0].push('\n') + joined_lines(pieces.drop_first()));
    }
}

/// A separator at the end adds one empty piece.
pub proof fn lemma_split_push(s: Seq<char>, sep: char)
    ensures
        split_on(s.push(sep), sep) == split_on(s, sep).push(Seq::empty()),
    decreases s.len(),
{
    lemma_first_index(s, sep);
    let k = first_index(s, sep);
    let longer = s.push(sep);
    assert forall|j: int| 0 <= j < k implies longer[j] != sep by {
        assert(longer[j] == s[j]);
    }
    assert(longer[k] == sep);
    lemma_first_index_is(longer, sep, k);
    if 0 <= k < s.len() {
        lemma_split_push(s.skip(k + 1), sep);
        assert(longer.skip(k + 1) =~= s.skip(k + 1).push(sep));
        assert(longer.take(k) =~= s.take(k));
        assert(seq![s.take(k)] + split_on(s.skip(k + 1), sep).push(Seq::empty()) =~= (seq![
            s.take(k),
        ] + split_on(s.skip(k + 1), sep)).push(Seq::empty()));
    } else {
        assert(longer.take(k) =~= s);
        assert(longer.skip(k + 1) =~= Seq::<char>::empty());
        lemma_split_whole(Seq::<char>::empty(), sep);
        assert(seq![s] + seq![Seq::<char>::empty()] =~= seq![s].push(Seq::empty()));
    }
}

/// A record is whole when it is empty or ends in a newline.
pub open spec fn whole(text: Seq<char>) -> bool {
    text.len() == 0 || text.last() == '\n'
}

/// A whole record is its lines joined, and none of its lines holds a
/// newline.
pub proof fn lemma_whole_text(text: Seq<char>)
    requires
        whole(text),
    ensures
        joined_lines(lines_of(text)) == text,
        forall|i: int| 0 <= i < lines_of(text).len() ==> single_line(#[trigger] lines_of(text)[i]),
{
    lemma_split_clean(text, '\n');
    lemma_split_nonempty(text, '\n');
    if text.len() == 0 {
        lemma_split_whole(text, '\n');
        assert(lines_of(text) =~= Seq::<Seq<char>>::empty());
        assert(text =~= Seq::<char>::empty());
    } else {
        let body = text.drop_last();
        assert(text =~= body.push('\n'));
        lemma_split_push(body, '\n');
        lemma_joined_split(body);
        lemma_split_clean(body, '\n');
        assert(split_on(body, '\n').push(Seq::<char>::empty()).drop_last() =~= split_on(
            body,
            '\n',
        ));
    }
}

/// A line that is added at the end of a whole record is read back as its
/// last line, after the lines that were there.
pub proof fn lemma_append_line(text: Seq<char>, line: Seq<char>)
    requires
        whole(text),
        single_line(line),
    ensures
        lines_of(text + line.push('\n')) == lines_of(text).push(line),
        whole(text + line.push('\n')),
{
    lemma_whole_text(text);
    let before = lines_of(text);
    lemma_joined_push(before, line);
    assert forall|i: int| 0 <= i < before.push(line).len() implies single_line(
        #[trigger] before.push(line)[i],
    ) by {
        if i < before.len() {
            assert(before.push(line)[i] == before[i]);
        }
    }
    lemma_lines_round_trip(before.push(line));
}

/// The lines of `text`.
pub fn lines(text: &str) -> (r: Vec<String>)
    ensures
        r.deep_view() == lines_of(text@),
{
    let mut pieces = split(text, '\n');
    proof {
        lemma_split_nonempty(text@, '\n');
    }
    let last = pieces.len() - 1;
    let ghost all = pieces.deep_view();
    assert(all.last() == pieces@[last as int]@);
    if pieces[last].as_str().is_empty() {
        pieces.pop();
        assert(pieces.deep_view() =~= all.drop_last());
    }
    pieces
}

/// Writes `lines` out, each with a newline after it.
pub fn render_lines(lines: &Vec<String>) -> (r: String)
    ensures
        r@ == joined_lines(lines.deep_view()),
{
    let mut r = String::new();
    let mut i: usize = 0;
    assert(lines.deep_view().take(0) =~= Seq::<Seq<char>>::empty());
    while i < lines.len()
        invariant
            i <= lines.len(),
            r@ == joined_lines(lines.deep_view().take(i as int)),
        decreases lines.len() - i,
    {
        proof {
            let all = lines.deep_view();
            lemma_joined_push(all.take(i as int), all[i as int]);
            assert(all.take(i as int).push(all[i as int]) =~= all.take(i + 1));
            reveal_strlit("\n");
            assert("\n"@ =~= seq!['\n']);
            assert(all[i as int].push('\n') =~= all[i as int] + seq!['\n']);
        }
        r.append(lines[i].as_str());
        r.append("\n");
        i += 1;
    }
    assert(lines.deep_view().take(lines.len() as int) =~= lines.deep_view());
    r
}

} // verus!
