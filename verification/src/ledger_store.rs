//! The backing store of the ledger as text: one identifier on each line.
//!
//! A line ends with a line feed; a carriage return just before the line feed
//! belongs to the line's end. The last line may lack its line feed. Nothing
//! is escaped, so an identifier that holds a line feed cannot be stored.

use crate::ledger::ids_view;
use vstd::prelude::*;
use vstd::string::*;

verus! {

/// Whether `text` holds no line feed.
pub open spec fn is_one_line(text: Seq<char>) -> bool {
    forall|i: int| 0 <= i < text.len() ==> #[trigger] text[i] != '\n'
}

/// Where the first line of `text` ends: at its first line feed, or at the end
/// of the text.
pub open spec fn first_break(text: Seq<char>) -> int
    decreases text.len(),
{
    if text.len() == 0 || text[0] == '\n' {
        0
    } else {
        1 + first_break(text.skip(1))
    }
}

/// A line without the carriage return at its end, if it has one there.
pub open spec fn without_cr(line: Seq<char>) -> Seq<char> {
    if line.len() > 0 && line.last() == '\r' {
        line.drop_last()
    } else {
        line
    }
}

/// The lines of a text.
pub open spec fn lines_of(text: Seq<char>) -> Seq<Seq<char>>
    decreases text.len(),
{
    if text.len() == 0 {
        Seq::empty()
    } else {
        let end = first_break(text);
        if 0 <= end < text.len() {
            seq![without_cr(text.take(end))] + lines_of(text.skip(end + 1))
        } else {
            seq![text]
        }
    }
}

/// The text that holds the given identifiers, each on a line of its own.
pub open spec fn text_of(ids: Seq<Seq<char>>) -> Seq<char>
    decreases ids.len(),
{
    if ids.len() == 0 {
        Seq::empty()
    } else {
        text_of(ids.drop_last()) + ids.last() + seq!['\n']
    }
}

/// Whether an identifier can be stored: it holds no line feed and does not
/// end with a carriage return.
pub open spec fn is_storable(id: Seq<char>) -> bool {
    is_one_line(id) && without_cr(id) == id
}

/// A line followed by a line feed ends where the line feed stands.
pub proof fn lemma_first_break_after_line(line: Seq<char>, rest: Seq<char>)
    requires
        is_one_line(line),
    ensures
        first_break(line + seq!['\n'] + rest) == line.len(),
        first_break(line) == line.len(),
    decreases line.len(),
{
    let text = line + seq!['\n'] + rest;
    if line.len() == 0 {
        assert(text[0] == '\n');
    } else {
        assert(text[0] == line[0]);
        assert(line[0] != '\n');
        let shorter = line.skip(1);
        assert(is_one_line(shorter)) by {
            assert forall|i: int| 0 <= i < shorter.len() implies #[trigger] shorter[i] != '\n' by {
                assert(shorter[i] == line[i + 1]);
            }
        }
        assert(text.skip(1) =~= shorter + seq!['\n'] + rest);
        lemma_first_break_after_line(shorter, rest);
    }
}

/// The lines of a line, a line feed and more text: the line without its
/// carriage return, then the lines of what follows.
pub proof fn lemma_lines_after_line(line: Seq<char>, rest: Seq<char>)
    requires
        is_one_line(line),
    ensures
        lines_of(line + seq!['\n'] + rest) == seq![without_cr(line)] + lines_of(rest),
        lines_of(line) == if line.len() == 0 {
            Seq::<Seq<char>>::empty()
        } else {
            seq![line]
        },
{
    let text = line + seq!['\n'] + rest;
    lemma_first_break_after_line(line, rest);
    assert(text.take(line.len() as int) =~= line);
    assert(text.skip(line.len() as int + 1) =~= rest);
}

/// Round trip: the lines of the text that holds storable identifiers are
/// those identifiers.
pub proof fn lemma_lines_of_text(ids: Seq<Seq<char>>)
    requires
        forall|i: int| 0 <= i < ids.len() ==> is_storable(#[trigger] ids[i]),
    ensures
        lines_of(text_of(ids)) == ids,
    decreases ids.len(),
{
    lemma_lines_after_first(ids, Seq::empty());
    assert(ids + Seq::<Seq<char>>::empty() =~= ids);
    assert(text_of(ids) + Seq::<char>::empty() =~= text_of(ids));
}

/// The lines of the text of storable identifiers and more text: the
/// identifiers, then the lines of what follows.
pub proof fn lemma_lines_after_first(ids: Seq<Seq<char>>, rest: Seq<char>)
    requires
        forall|i: int| 0 <= i < ids.len() ==> is_storable(#[trigger] ids[i]),
    ensures
        lines_of(text_of(ids) + rest) == ids + lines_of(rest),
    decreases ids.len(),
{
    if ids.len() == 0 {
        assert(text_of(ids) + rest =~= rest);
        assert(ids + lines_of(rest) =~= lines_of(rest));
    } else {
        let init = ids.drop_last();
        let last = ids.last();
        assert(is_storable(last));
        assert forall|i: int| 0 <= i < init.len() implies is_storable(#[trigger] init[i]) by {
            assert(init[i] == ids[i]);
        }
        let tail = last + seq!['\n'] + rest;
        lemma_lines_after_first(init, tail);
        lemma_lines_after_line(last, rest);
        assert(text_of(ids) + rest =~= text_of(init) + tail);
        assert(init + (seq![last] + lines_of(rest)) =~= ids + lines_of(rest));
    }
}

/// Splits the text of a backing store into its lines.
pub fn split_lines(content: &str) -> (lines: Vec<String>)
    ensures
        ids_view(lines@) == lines_of(content@),
{
    let mut lines: Vec<String> = Vec::new();
    let mut current = String::new();
    let mut held_cr = false;
    let ghost mut raw: Seq<char> = Seq::empty();
    proof {
        assert(raw + content@.skip(0) =~= content@);
        assert(ids_view(lines@) + lines_of(content@) =~= lines_of(content@));
    }
    for c in it: content.chars()
        invariant
            it.seq() == content@,
            is_one_line(raw),
            raw == if held_cr {
                current@.push('\r')
            } else {
                current@
            },
            !held_cr ==> without_cr(current@) == current@,
            ids_view(lines@) + lines_of(raw + content@.skip(it.index())) == lines_of(content@),
    {
        let ghost rest = content@.skip(it.index() + 1);
        proof {
            assert(content@.skip(it.index()) =~= seq![c] + rest);
        }
        if c == '\n' {
            proof {
                lemma_lines_after_line(raw, rest);
                assert(raw + content@.skip(it.index()) =~= raw + seq!['\n'] + rest);
                assert(without_cr(raw) =~= current@);
                assert(ids_view(lines@.push(current)) =~= ids_view(lines@).push(current@));
                assert(ids_view(lines@).push(current@) + lines_of(rest) =~= ids_view(lines@) + (
                seq![current@] + lines_of(rest)));
                assert(Seq::<char>::empty() + rest =~= rest);
                raw = Seq::empty();
            }
            lines.push(current);
            current = String::new();
            held_cr = false;
        } else {
            proof {
                assert(raw.push(c) + rest =~= raw + content@.skip(it.index()));
                assert(is_one_line(raw.push(c)));
                raw = raw.push(c);
            }
            if held_cr {
                current.push('\r');
            }
            if c == '\r' {
                held_cr = true;
            } else {
                held_cr = false;
                current.push(c);
            }
        }
    }
    proof {
        assert(content@.skip(content@.len() as int) =~= Seq::<char>::empty());
        assert(raw + Seq::<char>::empty() =~= raw);
        lemma_lines_after_line(raw, Seq::empty());
    }
    if held_cr {
        current.push('\r');
    }
    if current.as_str().unicode_len() > 0 {
        proof {
            assert(ids_view(lines@.push(current)) =~= ids_view(lines@) + seq![raw]);
        }
        lines.push(current);
    } else {
        assert(ids_view(lines@) + Seq::<Seq<char>>::empty() =~= ids_view(lines@));
    }
    lines
}

/// The text of a backing store that holds the given identifiers: each
/// followed by a line feed.
pub fn join_lines(ids: &Vec<String>) -> (content: String)
    ensures
        content@ == text_of(ids_view(ids@)),
{
    let ghost all = ids_view(ids@);
    let mut content = String::new();
    let mut i: usize = 0;
    assert(all.take(0) =~= Seq::empty());
    while i < ids.len()
        invariant
            all == ids_view(ids@),
            i <= ids.len(),
            content@ == text_of(all.take(i as int)),
        decreases ids.len() - i,
    {
        proof {
            assert(all.take(i + 1).drop_last() =~= all.take(i as int));
            assert(all.take(i + 1).last() == ids@[i as int]@);
        }
        content.append(ids[i].as_str());
        content.push('\n');
        proof {
            assert(content@ =~= text_of(all.take(i as int)) + ids@[i as int]@ + seq!['\n']);
        }
        i += 1;
    }
    assert(all.take(ids.len() as int) =~= all);
    content
}

} // verus!
