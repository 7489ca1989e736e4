//! The text of the transfer list: each row's state, a batch's file count,
//! and which columns fit.
use vstd::prelude::*;

use crate::text::{
    decimal, decimal_string, display_width, push_char, push_right_aligned, push_spaces, right_aligned, spaces, str_width,
};
use crate::transfer::job::Direction;
use crate::transfer::rows::{percent, percent_of, QueueRow, RowKind, RowState};
use crate::tui::widgets::file_list::{format_size, size_text, truncate_name, truncated};

verus! {

pub const ARROW_WIDTH: usize = 2;

pub const PERCENT_WIDTH: usize = 4;

pub const MIN_LABEL_WIDTH: usize = 8;

/// How a row's state reads.
pub open spec fn state_words(state: RowState) -> Seq<char> {
    match state {
        RowState::Scanning => "scanning"@ + seq!['\u{2026}'],
        RowState::Running => "running"@,
        RowState::Queued => "queued"@,
        RowState::Done => "done"@,
        RowState::PartlyFailed(failed) => "done, "@ + decimal(failed as nat) + " failed"@,
        RowState::Failed => "failed"@,
        RowState::Cancelled => "cancelled"@,
    }
}

pub fn state_text(state: RowState) -> (r: String)
    ensures
        r@ == state_words(state),
{
    match state {
        RowState::Scanning => {
            let mut r: String = "scanning".to_owned();
            push_char(&mut r, '\u{2026}');
            r
        },
        RowState::Running => "running".to_owned(),
        RowState::Queued => "queued".to_owned(),
        RowState::Done => "done".to_owned(),
        RowState::PartlyFailed(failed) => {
            let mut r: String = "done, ".to_owned();
            let n: String = decimal_string(failed as u64);
            r.append(n.as_str());
            r.append(" failed");
            r
        },
        RowState::Failed => "failed".to_owned(),
        RowState::Cancelled => "cancelled".to_owned(),
    }
}

/// A batch's progress in files: `done/total files`.
pub open spec fn batch_amount(done: usize, total: usize) -> Seq<char> {
    decimal(done as nat) + seq!['/'] + decimal(total as nat) + " files"@
}

pub fn batch_amount_text(done: usize, total: usize) -> (r: String)
    ensures
        r@ == batch_amount(done, total),
{
    let mut r: String = decimal_string(done as u64);
    push_char(&mut r, '/');
    let t: String = decimal_string(total as u64);
    r.append(t.as_str());
    r.append(" files");
    r
}

/// The amount column of a row: a batch's files, a single file's size,
/// nothing for a scan.
pub open spec fn amount_words(row: QueueRow) -> Seq<char> {
    match row.kind {
        RowKind::Batch(_) => batch_amount(row.files_done, row.files_total),
        RowKind::Single(_) => size_text(row.bytes_total, false),
        RowKind::Scan(_) => Seq::empty(),
    }
}

pub fn amount_text(row: &QueueRow) -> (r: String)
    ensures
        r@ == amount_words(*row),
{
    match row.kind {
        RowKind::Batch(_) => batch_amount_text(row.files_done, row.files_total),
        RowKind::Single(_) => format_size(row.bytes_total, false),
        RowKind::Scan(_) => String::new(),
    }
}

/// How wide the label is, and whether the amount and the percentage are
/// shown.
#[derive(Debug, Clone, Copy, PartialEq, Eq, Structural)]
pub struct TransferColumns {
    pub label: usize,
    pub amount: Option<usize>,
    pub show_percent: bool,
}

/// A row's percentage: none for a scan, otherwise its bytes done out of
/// its bytes in all.
pub open spec fn percent_words(row: QueueRow) -> Seq<char> {
    match row.kind {
        RowKind::Scan(_) => Seq::empty(),
        _ => decimal(percent(row.bytes_done, row.bytes_total) as nat) + seq!['%'],
    }
}

pub fn percent_text(row: &QueueRow) -> (r: String)
    ensures
        r@ == percent_words(*row),
{
    match row.kind {
        RowKind::Scan(_) => String::new(),
        _ => {
            let p: u8 = percent_of(row.bytes_done, row.bytes_total);
            let mut r: String = decimal_string(p as u64);
            push_char(&mut r, '%');
            r
        },
    }
}

/// The arrow of a row's direction and its label, cut and padded to
/// `width` columns.
pub open spec fn label_piece(row: QueueRow, width: usize) -> Seq<char> {
    let label = truncated(row.label@, width as int);
    let shown = display_width(label);
    seq![
        match row.direction {
            Direction::Upload => '\u{2191}',
            Direction::Download => '\u{2193}',
        },
        ' ',
    ] + label + spaces(
        if shown < width {
            (width - shown) as nat
        } else {
            0
        },
    )
}

/// The amount right-aligned in its column, when the column is shown.
pub open spec fn amount_piece(row: QueueRow, amount: Option<usize>) -> Seq<char> {
    match amount {
        Some(w) => seq![' '] + right_aligned(amount_words(row), w as nat),
        None => Seq::empty(),
    }
}

/// The percentage right-aligned in its column, when the column is shown.
pub open spec fn percent_piece(row: QueueRow, show: bool) -> Seq<char> {
    if show {
        seq![' '] + right_aligned(percent_words(row), PERCENT_WIDTH as nat)
    } else {
        Seq::empty()
    }
}

/// One line of the transfer list: the direction's arrow, the label cut
/// and padded to its column, the amount and the percentage right-aligned
/// when their columns are shown, then the state.
pub open spec fn row_line(row: QueueRow, columns: TransferColumns) -> Seq<char> {
    label_piece(row, columns.label) + amount_piece(row, columns.amount) + percent_piece(row, columns.show_percent)
        + "  "@ + state_words(row.state)
}

fn push_label(text: &mut String, row: &QueueRow, width: usize)
    ensures
        final(text)@ == old(text)@ + label_piece(*row, width),
{
    let ghost start = text@;
    match row.direction {
        Direction::Upload => push_char(text, '\u{2191}'),
        Direction::Download => push_char(text, '\u{2193}'),
    }
    push_char(text, ' ');
    let label: String = truncate_name(row.label.as_str(), width);
    text.append(label.as_str());
    let shown: usize = str_width(label.as_str());
    let pad: usize = if shown < width {
        width - shown
    } else {
        0
    };
    push_spaces(text, pad);
    proof {
        assert(text@ =~= start + label_piece(*row, width));
    }
}

fn push_amount(text: &mut String, row: &QueueRow, amount: Option<usize>)
    ensures
        final(text)@ == old(text)@ + amount_piece(*row, amount),
{
    match amount {
        Some(w) => {
            let ghost start = text@;
            push_char(text, ' ');
            let a: String = amount_text(row);
            push_right_aligned(text, a.as_str(), w);
            proof {
                assert(text@ =~= start + amount_piece(*row, amount));
            }
        },
        None => {
            proof {
                assert(text@ =~= old(text)@ + amount_piece(*row, amount));
            }
        },
    }
}

fn push_percent(text: &mut String, row: &QueueRow, show: bool)
    ensures
        final(text)@ == old(text)@ + percent_piece(*row, show),
{
    if show {
        let ghost start = text@;
        push_char(text, ' ');
        let p: String = percent_text(row);
        push_right_aligned(text, p.as_str(), PERCENT_WIDTH);
        proof {
            assert(text@ =~= start + percent_piece(*row, show));
        }
    } else {
        proof {
            assert(text@ =~= old(text)@ + percent_piece(*row, show));
        }
    }
}

pub fn row_text(row: &QueueRow, columns: &TransferColumns) -> (r: String)
    ensures
        r@ == row_line(*row, *columns),
{
    let mut text: String = String::new();
    push_label(&mut text, row, columns.label);
    push_amount(&mut text, row, columns.amount);
    push_percent(&mut text, row, columns.show_percent);
    text.append("  ");
    let state: String = state_text(row.state);
    text.append(state.as_str());
    proof {
        assert(text@ =~= row_line(*row, *columns));
    }
    text
}

/// The room left for the label beside `fixed` columns and the arrow,
/// when it is at least the minimum.
pub open spec fn label_room(width: int, fixed: int) -> Option<int> {
    if width >= ARROW_WIDTH + fixed && width - (ARROW_WIDTH + fixed) >= MIN_LABEL_WIDTH {
        Some(width - (ARROW_WIDTH + fixed))
    } else {
        None
    }
}

/// The widest state text among `rows`, with its two spaces.
pub open spec fn state_part(states: Seq<RowState>) -> int
    decreases states.len(),
{
    if states.len() == 0 {
        2
    } else {
        let rest = state_part(states.drop_last());
        let w: int = 2 + display_width(state_words(states.last())) as int;
        if w > rest {
            w
        } else {
            rest
        }
    }
}

/// Everything fits when it can; then the amount goes; then the
/// percentage, the label taking what is left (at least one column).
pub open spec fn columns_fit(width: int, amount_width: int, state_part: int) -> TransferColumns {
    let amount_part = 1 + amount_width;
    let percent_part = 1 + PERCENT_WIDTH;
    match label_room(width, amount_part + percent_part + state_part) {
        Some(label) => TransferColumns { label: label as usize, amount: Some(amount_width as usize), show_percent: true },
        None => match label_room(width, percent_part + state_part) {
            Some(label) => TransferColumns { label: label as usize, amount: None, show_percent: true },
            None => TransferColumns {
                label: (if width - (ARROW_WIDTH + state_part) >= 1 {
                    width - (ARROW_WIDTH + state_part)
                } else {
                    1
                }) as usize,
                amount: None,
                show_percent: false,
            },
        },
    }
}

pub open spec fn row_states(rows: Seq<QueueRow>) -> Seq<RowState> {
    rows.map_values(|r: QueueRow| r.state)
}

/// The columns for `rows` in `width` columns; `amount_width` is the width
/// of the widest amount shown. (The measured widths of the state texts
/// are short; should one ever be absurdly large, the sums saturate.)
pub fn columns_for(rows: &[QueueRow], amount_width: usize, width: usize) -> (c: TransferColumns)
    requires
        amount_width < 0x1_0000,
        width < 0x1_0000_0000,
    ensures
        (forall|i: int| 0 <= i < rows@.len() ==> display_width(state_words(#[trigger] rows@[i].state)) < 0x1_0000)
            ==> c == columns_fit(width as int, amount_width as int, state_part(row_states(rows@))),
{
    let ghost states = row_states(rows@);
    let ghost small = forall|k: int| 0 <= k < rows@.len() ==> display_width(state_words(#[trigger] rows@[k].state)) < 0x1_0000;
    let mut widest: usize = 2;
    let mut i: usize = 0;
    while i < rows.len()
        invariant
            i <= rows.len(),
            states == row_states(rows@),
            small == forall|k: int| 0 <= k < rows@.len() ==> display_width(state_words(#[trigger] rows@[k].state)) < 0x1_0000,
            small ==> widest == state_part(states.take(i as int)),
            small ==> widest < 0x1_0002,
        decreases rows.len() - i,
    {
        proof {
            assert(states.take(i + 1).drop_last() == states.take(i as int));
            assert(states.take(i + 1).last() == rows@[i as int].state);
        }
        let text: String = state_text(rows[i].state);
        let w: usize = str_width(text.as_str()).saturating_add(2);
        if w > widest {
            widest = w;
        }
        i = i + 1;
    }
    proof {
        assert(states.take(states.len() as int) == states);
    }
    let amount_part: usize = 1 + amount_width;
    let percent_part: usize = 1 + PERCENT_WIDTH;
    let all: usize = (ARROW_WIDTH + amount_part + percent_part).saturating_add(widest);
    if width >= all && width - all >= MIN_LABEL_WIDTH {
        return TransferColumns { label: width - all, amount: Some(amount_width), show_percent: true };
    }
    let some: usize = (ARROW_WIDTH + percent_part).saturating_add(widest);
    if width >= some && width - some >= MIN_LABEL_WIDTH {
        return TransferColumns { label: width - some, amount: None, show_percent: true };
    }
    let base: usize = ARROW_WIDTH.saturating_add(widest);
    let label: usize = if width >= base && width - base >= 1 {
        width - base
    } else {
        1
    };
    TransferColumns { label, amount: None, show_percent: false }
}

} // verus!
