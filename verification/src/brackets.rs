//! Loop brackets: where the `]` that closes a given `[` stands.

use vstd::prelude::*;

verus! {

/// The position of the first `]` at or after `from` that closes a loop
/// opened before `from`, when `depth` loops opened since are still open.
/// `None` when the program ends first.
pub open spec fn scan_close(program: Seq<char>, from: int, depth: int) -> Option<int>
    decreases program.len() - from,
{
    if from < 0 || from >= program.len() {
        None
    } else if program[from] == ']' {
        if depth <= 0 {
            Some(from)
        } else {
            scan_close(program, from + 1, depth - 1)
        }
    } else if program[from] == '[' {
        scan_close(program, from + 1, depth + 1)
    } else {
        scan_close(program, from + 1, depth)
    }
}

/// The position of the `]` that closes the `[` at position `open`, or `None`
/// when the program has none.
pub open spec fn matching_close(program: Seq<char>, open: int) -> Option<int> {
    scan_close(program, open + 1, 0)
}

/// How many more `[` than `]` stand in `program` from `from` up to, not
/// including, `to`.
pub open spec fn nesting(program: Seq<char>, from: int, to: int) -> int
    decreases to - from,
{
    if to <= from {
        0
    } else if program[to - 1] == '[' {
        nesting(program, from, to - 1) + 1
    } else if program[to - 1] == ']' {
        nesting(program, from, to - 1) - 1
    } else {
        nesting(program, from, to - 1)
    }
}

/// Whether `close` is the first position at or after `from` where the
/// closing brackets since `from` outnumber the opening ones by more than
/// `depth`.
pub open spec fn closes_at(program: Seq<char>, from: int, depth: int, close: int) -> bool {
    &&& from <= close < program.len()
    &&& depth + nesting(program, from, close + 1) == -1
    &&& forall|k: int| from <= k <= close ==> depth + #[trigger] nesting(program, from, k) >= 0
}

/// Splitting off the first character of a counted stretch.
proof fn lemma_nesting_first(program: Seq<char>, from: int, to: int)
    requires
        0 <= from < to <= program.len(),
    ensures
        nesting(program, from, to) == nesting(program, from + 1, to) + nesting(
            program,
            from,
            from + 1,
        ),
    decreases to - from,
{
    if to > from + 1 {
        lemma_nesting_first(program, from, to - 1);
    } else {
        assert(nesting(program, from + 1, to) == 0);
        assert(nesting(program, from, from) == 0);
    }
}

/// A scan that finds a bracket finds the first position where the closing
/// brackets outnumber the opening ones by more than `depth`; a scan that
/// finds none shows that they never do.
pub proof fn lemma_scan_close(program: Seq<char>, from: int, depth: int)
    requires
        0 <= from,
        0 <= depth,
    ensures
        match scan_close(program, from, depth) {
            Some(close) => closes_at(program, from, depth, close) && program[close] == ']',
            None => forall|k: int|
                from <= k <= program.len() ==> depth + #[trigger] nesting(program, from, k) >= 0,
        },
    decreases program.len() - from,
{
    if from >= program.len() {
        assert forall|k: int| from <= k <= program.len() implies depth + #[trigger] nesting(
            program,
            from,
            k,
        ) >= 0 by {}
    } else {
        let c = program[from];
        assert(nesting(program, from, from) == 0);
        let one = nesting(program, from, from + 1);
        assert(one == if c == '[' {
            1int
        } else if c == ']' {
            -1int
        } else {
            0int
        });
        if c == ']' && depth == 0 {
            assert forall|k: int| from <= k <= from implies depth + #[trigger] nesting(
                program,
                from,
                k,
            ) >= 0 by {}
        } else {
            let inner = depth + one;
            lemma_scan_close(program, from + 1, inner);
            assert(scan_close(program, from, depth) == scan_close(program, from + 1, inner));
            assert forall|k: int| from < k <= program.len() implies depth + nesting(
                program,
                from,
                k,
            ) == inner + #[trigger] nesting(program, from + 1, k) by {
                lemma_nesting_first(program, from, k);
            }
            match scan_close(program, from + 1, inner) {
                Some(close) => {
                    assert forall|k: int| from <= k <= close implies depth + #[trigger] nesting(
                        program,
                        from,
                        k,
                    ) >= 0 by {
                        if k > from {
                            assert(inner + nesting(program, from + 1, k) >= 0);
                        }
                    }
                },
                None => {
                    assert forall|k: int| from <= k <= program.len() implies depth
                        + #[trigger] nesting(program, from, k) >= 0 by {
                        if k > from {
                            assert(inner + nesting(program, from + 1, k) >= 0);
                        }
                    }
                },
            }
        }
    }
}

/// The bracket that closes the `[` at `open` is the first position after it
/// where the closing brackets outnumber the opening ones, and there is no
/// closing bracket for it exactly when that never happens.
pub proof fn lemma_matching_close(program: Seq<char>, open: int)
    requires
        0 <= open,
    ensures
        match matching_close(program, open) {
            Some(close) => {
                &&& open < close < program.len()
                &&& program[close] == ']'
                &&& nesting(program, open + 1, close) == 0
                &&& forall|k: int| open < k <= close ==> #[trigger] nesting(program, open + 1, k) >= 0
            },
            None => forall|k: int|
                open < k <= program.len() ==> #[trigger] nesting(program, open + 1, k) >= 0,
        },
{
    lemma_scan_close(program, open + 1, 0);
}

/// Finds the `]` that closes the `[` at position `open`.
pub fn find_matching_close(program: &Vec<char>, open: usize) -> (found: Option<usize>)
    requires
        open < program.len(),
    ensures
        match found {
            Some(close) => matching_close(program@, open as int) == Some(close as int),
            None => matching_close(program@, open as int) is None,
        },
{
    let mut i: usize = open + 1;
    let mut depth: usize = 0;
    while i < program.len()
        invariant
            open < i <= program.len(),
            depth <= i - open,
            matching_close(program@, open as int) == scan_close(program@, i as int, depth as int),
        decreases program.len() - i,
    {
        let c = program[i];
        if c == ']' {
            if depth == 0 {
                return Some(i);
            }
            depth -= 1;
        } else if c == '[' {
            depth += 1;
        }
        i += 1;
    }
    None
}

} // verus!
