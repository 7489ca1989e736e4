//! The text of a file listing: which columns fit, names cut to fit, and
//! Unix permissions written out.
use vstd::prelude::*;

use crate::rounding::{as_f64, div_round_even, nearest_f64, div_round_even_exec};
use crate::text::{
    chars_of, decimal, decimal_string, digit_char, left_aligned, push_char, push_left_aligned, push_right_aligned,
    right_aligned, string_of,
};
use crate::tui::panels::{Row, RowView};

verus! {

/// The width of the size column.
pub const SIZE_WIDTH: usize = 8;

/// The width of the permissions column.
pub const PERMISSIONS_WIDTH: usize = 9;

/// Which columns fit in a panel, and how wide the name column gets.
#[derive(Debug, Clone, Copy, PartialEq, Eq, Structural)]
pub struct Columns {
    pub name_width: usize,
    pub show_size: bool,
    pub show_permissions: bool,
}

/// Permissions show from 40 columns, sizes from 28; the name gets what is
/// left after the selection marker, a space and each shown column with
/// its separating space, but never less than 4.
pub open spec fn columns_for_width(width: int) -> Columns {
    let show_permissions = width >= 40;
    let show_size = width >= 28;
    let overhead = 2 + (if show_size {
        1 + SIZE_WIDTH
    } else {
        0
    }) + (if show_permissions {
        1 + PERMISSIONS_WIDTH
    } else {
        0
    });
    let left = if width >= overhead {
        width - overhead
    } else {
        0
    };
    Columns { name_width: (if left >= 4 {
        left
    } else {
        4
    }) as usize, show_size, show_permissions }
}

impl Columns {
    pub fn for_width(width: u16) -> (c: Columns)
        ensures
            c == columns_for_width(width as int),
    {
        let width: usize = width as usize;
        let show_permissions: bool = width >= 40;
        let show_size: bool = width >= 28;
        let mut overhead: usize = 2;
        if show_size {
            overhead = overhead + 1 + SIZE_WIDTH;
        }
        if show_permissions {
            overhead = overhead + 1 + PERMISSIONS_WIDTH;
        }
        let left: usize = width.saturating_sub(overhead);
        Columns { name_width: if left >= 4 {
            left
        } else {
            4
        }, show_size, show_permissions }
    }
}

/// `name` if it fits in `max_width` characters; otherwise its first
/// `max_width - 1` characters and an ellipsis (just the ellipsis when
/// there is room for one character or none).
pub open spec fn truncated(name: Seq<char>, max_width: int) -> Seq<char> {
    if name.len() <= max_width {
        name
    } else if max_width <= 1 {
        seq!['\u{2026}']
    } else {
        name.take(max_width - 1).push('\u{2026}')
    }
}

pub fn truncate_name(name: &str, max_width: usize) -> (r: String)
    ensures
        r@ == truncated(name@, max_width as int),
{
    let count: usize = name.unicode_len();
    if count <= max_width {
        return name.to_owned();
    }
    if max_width <= 1 {
        let mut r: String = String::new();
        push_char(&mut r, '\u{2026}');
        return r;
    }
    let v: Vec<char> = chars_of(name);
    let head: Vec<char> = crate::text::slice_chars(&v, 0, max_width - 1);
    let mut r: String = string_of(&head);
    push_char(&mut r, '\u{2026}');
    r
}

/// The mode bits in `rwxrwxrwx` order, owner first.
pub open spec fn permission_bit(i: int) -> u32 {
    if i == 0 {
        0o400
    } else if i == 1 {
        0o200
    } else if i == 2 {
        0o100
    } else if i == 3 {
        0o040
    } else if i == 4 {
        0o020
    } else if i == 5 {
        0o010
    } else if i == 6 {
        0o004
    } else if i == 7 {
        0o002
    } else {
        0o001
    }
}

/// The letter shown for each bit when set.
pub open spec fn permission_letter(i: int) -> char {
    if i % 3 == 0 {
        'r'
    } else if i % 3 == 1 {
        'w'
    } else {
        'x'
    }
}

/// The low nine bits of a Unix mode as `rwxr-xr-x`; nine dashes when the
/// mode is unknown.
pub open spec fn permissions_text(mode: Option<u32>) -> Seq<char> {
    match mode {
        None => Seq::new(9, |i: int| '-'),
        Some(m) => Seq::new(9, |i: int| if m & permission_bit(i) != 0 {
            permission_letter(i)
        } else {
            '-'
        }),
    }
}

fn permission_bit_at(i: usize) -> (b: u32)
    requires
        i < 9,
    ensures
        b == permission_bit(i as int),
{
    if i == 0 {
        0o400
    } else if i == 1 {
        0o200
    } else if i == 2 {
        0o100
    } else if i == 3 {
        0o040
    } else if i == 4 {
        0o020
    } else if i == 5 {
        0o010
    } else if i == 6 {
        0o004
    } else if i == 7 {
        0o002
    } else {
        0o001
    }
}

pub fn format_permissions(mode: Option<u32>) -> (r: String)
    ensures
        r@ == permissions_text(mode),
{
    let mut r: String = String::new();
    let mut i: usize = 0;
    while i < 9
        invariant
            i <= 9,
            r@ == permissions_text(mode).take(i as int),
        decreases 9 - i,
    {
        let c: char = match mode {
            None => '-',
            Some(m) => {
                if m & permission_bit_at(i) != 0 {
                    if i % 3 == 0 {
                        'r'
                    } else if i % 3 == 1 {
                        'w'
                    } else {
                        'x'
                    }
                } else {
                    '-'
                }
            },
        };
        push_char(&mut r, c);
        proof {
            assert(permissions_text(mode).take(i + 1) =~= permissions_text(mode).take(i as int).push(c));
        }
        i = i + 1;
    }
    proof {
        assert(permissions_text(mode).take(9) =~= permissions_text(mode));
    }
    r
}

/// Which unit a size of `f` bytes (at least 1024) is shown in: 0 for K,
/// 1 for M, 2 for G, 3 for T.
pub open spec fn size_unit(f: nat) -> nat {
    if f < 0x10_0000 {
        0
    } else if f < 0x4000_0000 {
        1
    } else if f < 0x100_0000_0000 {
        2
    } else {
        3
    }
}

/// The bytes in one of unit `u`.
pub open spec fn unit_bytes(u: nat) -> nat {
    if u == 0 {
        0x400
    } else if u == 1 {
        0x10_0000
    } else if u == 2 {
        0x4000_0000
    } else {
        0x100_0000_0000
    }
}

pub open spec fn unit_letter(u: nat) -> char {
    if u == 0 {
        'K'
    } else if u == 1 {
        'M'
    } else if u == 2 {
        'G'
    } else {
        'T'
    }
}

/// A size as the listing shows it: an em dash for a directory; the byte
/// count under 1024; otherwise the size in the largest unit (K, M, G, T)
/// in which it is at least 1, with one decimal place, rounded to the
/// nearest tenth (a tie to the even tenth). Above 2 to the 53 the size is
/// first rounded to the nearest `f64`, as the computation in `f64` does.
pub open spec fn size_text(size: u64, is_dir: bool) -> Seq<char> {
    if is_dir {
        seq!['\u{2014}']
    } else if size < 1024 {
        decimal(size as nat)
    } else {
        let f = as_f64(size as nat);
        let u = size_unit(f);
        let tenths = div_round_even(f * 10, unit_bytes(u));
        decimal(tenths / 10) + seq!['.', digit_char(tenths % 10), unit_letter(u)]
    }
}

pub fn format_size(size: u64, is_dir: bool) -> (r: String)
    ensures
        r@ == size_text(size, is_dir),
{
    if is_dir {
        let mut r: String = String::new();
        push_char(&mut r, '\u{2014}');
        return r;
    }
    if size < 1024 {
        return decimal_string(size);
    }
    let f: u128 = nearest_f64(size);
    let ghost u: nat = size_unit(f as nat);
    let (scale, letter): (u128, char) = if f < 0x10_0000 {
        (0x400, 'K')
    } else if f < 0x4000_0000 {
        (0x10_0000, 'M')
    } else if f < 0x100_0000_0000 {
        (0x4000_0000, 'G')
    } else {
        (0x100_0000_0000, 'T')
    };
    assert(scale == unit_bytes(u) && letter == unit_letter(u));
    let tenths: u128 = div_round_even_exec(f * 10, scale);
    proof {
        assert((f * 10) as int / scale as int <= (f * 10) as int / 0x400) by {
            vstd::arithmetic::div_mod::lemma_div_is_ordered_by_denominator((f * 10) as int, 0x400, scale as int);
        }
    }
    let whole: u128 = tenths / 10;
    let digit: u128 = tenths % 10;
    let mut r: String = decimal_string(whole as u64);
    push_char(&mut r, '.');
    let c: char = ((digit as u8) + 48u8) as char;
    push_char(&mut r, c);
    push_char(&mut r, letter);
    proof {
        assert(c == digit_char(digit as nat));
    }
    r
}

/// One line of a file listing: `..` for the parent; otherwise a `*` for a
/// selected entry, the name (a directory's with `/`) cut and padded to its
/// column, then the size and the permissions when their columns are shown.
pub open spec fn row_label_text(row: RowView, selected: bool, columns: Columns) -> Seq<char> {
    match row {
        RowView::Parent => "  .."@,
        RowView::Entry(e) => {
            let name = truncated(
                e.name + if e.is_dir {
                    seq!['/']
                } else {
                    Seq::empty()
                },
                columns.name_width as int,
            );
            let base = seq![
                if selected {
                    '*'
                } else {
                    ' '
                },
                ' ',
            ] + left_aligned(name, columns.name_width as nat);
            let sized = if columns.show_size {
                base + seq![' '] + right_aligned(size_text(e.size, e.is_dir), SIZE_WIDTH as nat)
            } else {
                base
            };
            if columns.show_permissions {
                sized + seq![' '] + permissions_text(e.permissions)
            } else {
                sized
            }
        },
    }
}

pub fn row_label(row: &Row, selected: bool, columns: Columns) -> (r: String)
    ensures
        r@ == row_label_text(row@, selected, columns),
{
    match row {
        Row::Parent => "  ..".to_owned(),
        Row::Entry(entry) => {
            let mut shown: String = entry.name.clone();
            if entry.is_dir {
                push_char(&mut shown, '/');
            } else {
                proof {
                    assert(shown@ =~= entry.name@ + Seq::<char>::empty());
                }
            }
            let name: String = truncate_name(shown.as_str(), columns.name_width);
            let mut label: String = String::new();
            push_char(&mut label, if selected {
                '*'
            } else {
                ' '
            });
            push_char(&mut label, ' ');
            push_left_aligned(&mut label, name.as_str(), columns.name_width);
            let ghost base = label@;
            if columns.show_size {
                push_char(&mut label, ' ');
                let size: String = format_size(entry.size, entry.is_dir);
                push_right_aligned(&mut label, size.as_str(), SIZE_WIDTH);
            }
            let ghost sized = label@;
            if columns.show_permissions {
                push_char(&mut label, ' ');
                let permissions: String = format_permissions(entry.permissions);
                label.append(permissions.as_str());
            }
            proof {
                assert(base =~= seq![
                    if selected {
                        '*'
                    } else {
                        ' '
                    },
                    ' ',
                ] + left_aligned(name@, columns.name_width as nat));
                if columns.show_size {
                    assert(sized =~= base + seq![' '] + right_aligned(size_text(entry.size, entry.is_dir), SIZE_WIDTH as nat));
                }
                if columns.show_permissions {
                    assert(label@ =~= sized + seq![' '] + permissions_text(entry.permissions));
                }
            }
            label
        },
    }
}

} // verus!
