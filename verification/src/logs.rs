//! The tail of the application's log, as the front end shows it.

use vstd::prelude::*;
use crate::text::{chars_of, contains, contains_sub, split, split_on};

verus! {

/// `line` without one carriage return at its end.
pub open spec fn without_cr(line: Seq<char>) -> Seq<char> {
    if line.len() > 0 && line.last() == '\r' {
        line.drop_last()
    } else {
        line
    }
}

/// The lines of `text`. A line ends at a line feed, or at a carriage
/// return followed by one; neither is part of the line. What follows the
/// last line feed is a line unless it is empty, and keeps a carriage return
/// at its end.
pub open spec fn lines_of(text: Seq<char>) -> Seq<Seq<char>> {
    let pieces = split_on(text, '\n');
    let count = if pieces.last().len() == 0 {
        pieces.len() - 1
    } else {
        pieces.len() as int
    };
    Seq::new(
        count as nat,
        |i: int|
            if i < pieces.len() - 1 {
                without_cr(pieces[i])
            } else {
                pieces[i]
            },
    )
}

/// The lines of `text`.
pub fn lines(text: &str) -> (r: Vec<String>)
    ensures
        r.deep_view() == lines_of(text@),
{
    let pieces = split(text, '\n');
    let n = pieces.len();
    let count = if pieces[n - 1].as_str().is_empty() {
        n - 1
    } else {
        n
    };
    let mut r: Vec<String> = Vec::new();
    let mut i: usize = 0;
    while i < count
        invariant
            i <= count,
            count <= n,
            n == pieces.len(),
            pieces.deep_view() == split_on(text@, '\n'),
            r.len() == i,
            forall|j: int| 0 <= j < i ==> r@[j]@ == lines_of(text@)[j],
            count == lines_of(text@).len(),
        decreases count - i,
    {
        let piece = pieces[i].as_str();
        let line = if i < n - 1 {
            let cs = chars_of(piece);
            let m = cs.len();
            if m > 0 && cs[m - 1] == '\r' {
                proof {
                    assert(piece@.subrange(0, m - 1) =~= piece@.drop_last());
                }
                piece.substring_char(0, m - 1).to_owned()
            } else {
                piece.to_owned()
            }
        } else {
            piece.to_owned()
        };
        proof {
            assert(pieces.deep_view()[i as int] == piece@);
        }
        r.push(line);
        i += 1;
    }
    proof {
        assert(r.deep_view() =~= lines_of(text@));
    }
    r
}

/// The lines among `lines` that are no debug messages, in order.
pub open spec fn shown(lines: Seq<Seq<char>>) -> Seq<Seq<char>>
    decreases lines.len(),
{
    if lines.len() == 0 {
        Seq::empty()
    } else if contains_sub(lines.last(), "[DEBUG]"@) {
        shown(lines.drop_last())
    } else {
        shown(lines.drop_last()).push(lines.last())
    }
}

/// The last 20 lines of `lines`, or all of them where there are fewer.
pub open spec fn last_lines(lines: Seq<Seq<char>>) -> Seq<Seq<char>> {
    if lines.len() > 20 {
        lines.skip(lines.len() - 20)
    } else {
        lines
    }
}

/// The tail of the log `content`: the last 20 of its lines that are no
/// debug messages.
pub fn tail_log(content: &str) -> (r: Vec<String>)
    ensures
        r.deep_view() == last_lines(shown(lines_of(content@))),
{
    let all = lines(content);
    let ghost every = all.deep_view();
    let mut kept: Vec<String> = Vec::new();
    proof {
        assert(kept.deep_view() =~= Seq::<Seq<char>>::empty());
        assert(every.take(0) =~= Seq::<Seq<char>>::empty());
    }
    let mut i: usize = 0;
    while i < all.len()
        invariant
            i <= all.len(),
            every == all.deep_view(),
            kept.deep_view() == shown(every.take(i as int)),
        decreases all.len() - i,
    {
        let ghost before = kept.deep_view();
        proof {
            let t = every.take(i as int + 1);
            assert(t.drop_last() =~= every.take(i as int));
            assert(t.last() == every[i as int]);
        }
        if !contains(all[i].as_str(), "[DEBUG]") {
            kept.push(all[i].clone());
            proof {
                assert(kept.deep_view() =~= before.push(every[i as int]));
            }
        }
        i += 1;
    }
    proof {
        assert(every.take(i as int) =~= every);
    }
    let start: usize = if kept.len() > 20 {
        kept.len() - 20
    } else {
        0
    };
    let mut r: Vec<String> = Vec::new();
    let mut k: usize = start;
    while k < kept.len()
        invariant
            start <= k <= kept.len(),
            r.len() == k - start,
            forall|j: int| 0 <= j < r.len() ==> r@[j]@ == kept@[start + j]@,
        decreases kept.len() - k,
    {
        r.push(kept[k].clone());
        k += 1;
    }
    proof {
        assert(r.deep_view() =~= last_lines(kept.deep_view()));
    }
    r
}

} // verus!
