//! The line assembler: physical lines, joined where one ends with a
//! backslash, give the logical lines that the tokenizer reads.

use crate::text::{
    chars_of, count_leading_whitespace, lemma_deep_push, lines_of, split_lines, trim_start,
};
use vstd::prelude::*;

verus! {

/// The assembler's state between two physical lines.
pub struct Joining {
    /// The logical lines that are complete.
    pub lines: Seq<Seq<char>>,
    /// The beginning of the next logical line.
    pub buffer: Seq<char>,
    /// Whether the last physical line ended with a backslash.
    pub appending: bool,
}

/// Takes in one physical line.
///
/// After a line that ended with a backslash, the white space that this line
/// begins with is dropped. If the line ends with a backslash, the backslash is
/// dropped and the logical line goes on; else the logical line is complete.
/// Only the last character counts: two backslashes at the end leave one in
/// the text and still join the next line.
pub open spec fn take_physical(state: Joining, physical: Seq<char>) -> Joining {
    let input = if state.appending {
        trim_start(physical)
    } else {
        physical
    };
    if input.len() > 0 && input.last() == '\\' {
        Joining { lines: state.lines, buffer: state.buffer + input.drop_last(), appending: true }
    } else {
        Joining {
            lines: state.lines.push(state.buffer + input),
            buffer: Seq::empty(),
            appending: false,
        }
    }
}

/// The state after the physical lines from position `i` on.
pub open spec fn join_from(physical: Seq<Seq<char>>, i: int, state: Joining) -> Joining
    decreases physical.len() - i,
{
    if i < 0 || i >= physical.len() {
        state
    } else {
        join_from(physical, i + 1, take_physical(state, physical[i]))
    }
}

/// The logical lines of a template.
pub struct Logical {
    /// The logical lines, in order.
    pub lines: Seq<Seq<char>>,
    /// Whether the template ended with a backslash, so that the last logical
    /// line was closed by the end of the template.
    pub pending: bool,
}

/// The logical lines that physical lines give.
pub open spec fn join(physical: Seq<Seq<char>>) -> Logical {
    let end = join_from(
        physical,
        0,
        Joining { lines: Seq::empty(), buffer: Seq::empty(), appending: false },
    );
    Logical {
        lines: if end.appending {
            end.lines.push(end.buffer)
        } else {
            end.lines
        },
        pending: end.appending,
    }
}

/// The logical lines of the template `text`.
pub open spec fn logical(text: Seq<char>) -> Logical {
    join(lines_of(text))
}

/// The logical lines of a template.
pub struct LogicalLines {
    /// The logical lines, in order.
    pub lines: Vec<String>,
    /// Whether the template ended with a backslash.
    pub pending: bool,
}

/// Joins the physical lines of `text` into logical lines.
pub fn logical_lines(text: &str) -> (joined: LogicalLines)
    ensures
        joined.lines.deep_view() == logical(text@).lines,
        joined.pending == logical(text@).pending,
{
    let chars = chars_of(text);
    let physical = split_lines(&chars);
    let mut lines: Vec<String> = Vec::new();
    let mut buffer = String::new();
    let mut appending = false;
    assert(lines.deep_view() =~= Seq::<Seq<char>>::empty());
    let mut i: usize = 0;
    while i < physical.len()
        invariant
            i <= physical.len(),
            physical.deep_view() == lines_of(text@),
            join_from(
                physical.deep_view(),
                i as int,
                Joining { lines: lines.deep_view(), buffer: buffer@, appending },
            ) == join_from(
                physical.deep_view(),
                0,
                Joining { lines: Seq::empty(), buffer: Seq::empty(), appending: false },
            ),
        decreases physical.len() - i,
    {
        let line = &physical[i];
        assert(physical.deep_view()[i as int] == line@) by {
            crate::text::lemma_chars_deep(*line);
        }
        let from: usize = if appending {
            count_leading_whitespace(line)
        } else {
            0
        };
        let ghost state = Joining { lines: lines.deep_view(), buffer: buffer@, appending };
        let ghost input = line@.skip(from as int);
        assert(input =~= if appending {
            trim_start(line@)
        } else {
            line@
        });
        let joins = from < line.len() && line[line.len() - 1] == '\\';
        let to: usize = if joins {
            line.len() - 1
        } else {
            line.len()
        };
        assert(joins == (input.len() > 0 && input.last() == '\\'));
        let ghost old_buffer = buffer@;
        let mut k: usize = from;
        while k < to
            invariant
                from <= k <= to <= line.len(),
                buffer@ == old_buffer + line@.subrange(from as int, k as int),
            decreases to - k,
        {
            buffer.push(line[k]);
            k += 1;
        }
        if joins {
            assert(line@.subrange(from as int, to as int) =~= input.drop_last());
            appending = true;
        } else {
            assert(line@.subrange(from as int, to as int) =~= input);
            let ghost before = lines;
            let ghost last = buffer;
            lines.push(buffer);
            proof {
                lemma_deep_push(before, lines, last);
            }
            buffer = String::new();
            appending = false;
        }
        assert(Joining { lines: lines.deep_view(), buffer: buffer@, appending } == take_physical(
            state,
            line@,
        ));
        i += 1;
    }
    if appending {
        let ghost before = lines;
        let ghost last = buffer;
        lines.push(buffer);
        proof {
            lemma_deep_push(before, lines, last);
        }
    }
    LogicalLines { lines, pending: appending }
}

} // verus!
