//! Terminal geometry and the cursor work of clearing lines, apart from the
//! system calls that query and move the terminal.
use vstd::prelude::*;

use crate::draw::{op_views, push_op, Op, TermOp};

verus! {

/// Rows and columns assumed when the terminal's size is unknown.
pub const DEFAULT_ROWS: u16 = 24;

pub const DEFAULT_COLUMNS: u16 = 80;

/// The size of a console window in rows and columns, from the edges of its
/// window rectangle as the console reports them (`None` when it could not).
/// The edges are inclusive: a window from column 0 to column 79 is 80
/// columns wide.
pub fn terminal_size(window: Option<(i16, i16, i16, i16)>) -> (r: Option<(u16, u16)>)
    requires
        window matches Some((left, top, right, bottom)) ==> 0 <= bottom - top + 1 <= u16::MAX && 0 <= right
            - left + 1 <= u16::MAX,
    ensures
        window is None ==> r is None,
        window matches Some((left, top, right, bottom)) ==> r == Some(
            ((bottom - top + 1) as u16, (right - left + 1) as u16),
        ),
{
    match window {
        Some((left, top, right, bottom)) => {
            let rows = (bottom as i32) - (top as i32) + 1;
            let cols = (right as i32) - (left as i32) + 1;
            Some((rows as u16, cols as u16))
        },
        None => None,
    }
}

/// The terminal's size in rows and columns, or the defaults when unknown.
pub fn size_or_default(size: Option<(u16, u16)>) -> (r: (u16, u16))
    ensures
        r == (match size {
            Some(s) => s,
            None => (DEFAULT_ROWS, DEFAULT_COLUMNS),
        }),
{
    match size {
        Some(s) => s,
        None => (DEFAULT_ROWS, DEFAULT_COLUMNS),
    }
}

/// Clearing the last `n` lines: up `n`, then clear a line and go down, `n`
/// times, then up `n` again.
pub open spec fn clear_last_lines_ops(n: nat) -> Seq<Op> {
    seq![Op::Up(n)] + Seq::new(2 * n, |i: int| if i % 2 == 0 {
        Op::Clear
    } else {
        Op::Down(1)
    }) + seq![Op::Up(n)]
}

/// The operations that clear the last `n` lines.
pub fn clear_last_lines(n: usize) -> (ops: Vec<TermOp>)
    ensures
        op_views(ops@) == clear_last_lines_ops(n as nat),
{
    let mut ops: Vec<TermOp> = Vec::new();
    push_op(&mut ops, TermOp::MoveCursorUp(n));
    let ghost head = op_views(ops@);
    let mut i: usize = 0;
    while i < n
        invariant
            i <= n,
            op_views(ops@) == head + Seq::new(2 * (i as nat), |k: int| if k % 2 == 0 {
                Op::Clear
            } else {
                Op::Down(1)
            }),
        decreases n - i,
    {
        push_op(&mut ops, TermOp::ClearLine);
        push_op(&mut ops, TermOp::MoveCursorDown(1));
        i = i + 1;
        assert(op_views(ops@) =~= head + Seq::new(2 * (i as nat), |k: int| if k % 2 == 0 {
            Op::Clear
        } else {
            Op::Down(1)
        }));
    }
    push_op(&mut ops, TermOp::MoveCursorUp(n));
    assert(op_views(ops@) =~= clear_last_lines_ops(n as nat));
    ops
}

} // verus!
