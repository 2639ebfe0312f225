//! The counts of a folded profile: a stack, a space, how many samples it has,
//! and for a profile that is compared with an earlier one two such columns.

use crate::text::{
    all_digits, chars_of, digits_value, find_char, first_char, lemma_digits_prefix, pieces,
    run_of, split_at, trim, trim_end, trimmed, trimmed_end,
};
use vstd::prelude::*;

verus! {

/// The last place below `n` where a space stands.
pub open spec fn last_space(s: Seq<char>, n: nat) -> Option<int>
    decreases n,
{
    if n == 0 {
        None
    } else if s[n - 1] == ' ' {
        Some(n - 1)
    } else {
        last_space(s, (n - 1) as nat)
    }
}

/// The whole part of a count: digits, behind which a point and more digits
/// may stand.
pub open spec fn whole_part(field: Seq<char>) -> Option<Seq<char>> {
    match first_char(field, '.', 0) {
        None => if all_digits(field) {
            Some(field)
        } else {
            None
        },
        Some(d) => if all_digits(field.take(d)) && all_digits(field.skip(d + 1)) {
            Some(field.take(d))
        } else {
            None
        },
    }
}

/// The count behind the last space of a line, and what stands before it.
pub open spec fn count_column(line: Seq<char>) -> Option<(nat, Seq<char>)> {
    match last_space(line, line.len()) {
        None => None,
        Some(i) => match whole_part(line.skip(i + 1)) {
            None => None,
            Some(d) => if d.len() > 0 && digits_value(d) <= u64::MAX {
                Some((digits_value(d), trimmed_end(line.take(i))))
            } else {
                None
            },
        },
    }
}

/// Is the line a remark?
pub open spec fn remark(line: Seq<char>) -> bool {
    line.len() >= 2 && line[0] == '#' && line[1] == ' '
}

/// The count columns of a line: the last one, and the one before it where
/// there are two.
pub open spec fn columns(line: Seq<char>) -> Option<(nat, Option<nat>)> {
    let l = trimmed(line);
    if remark(l) {
        None
    } else {
        match count_column(l) {
            None => None,
            Some((n, rest)) => match count_column(rest) {
                None => Some((n, None)),
                Some((m, _)) => Some((n, Some(m))),
            },
        }
    }
}

/// The samples that a line counts.
pub open spec fn samples(line: Seq<char>) -> nat {
    match columns(line) {
        Some((n, _)) => n,
        None => 0,
    }
}

/// Can the change that a line tells of be given a shade? Shades are picked
/// among 150 in machine words.
pub open spec fn shaded(line: Seq<char>) -> bool {
    columns(line) matches Some((n, Some(m))) ==> {
        &&& n <= isize::MAX
        &&& m <= isize::MAX
        &&& 150 * (n - m) <= isize::MAX
        &&& 150 * (m - n) <= isize::MAX
    }
}

/// The samples of the first `k` lines.
pub open spec fn samples_upto(lines: Seq<Seq<char>>, k: nat) -> nat
    decreases k,
{
    if k == 0 {
        0
    } else {
        samples_upto(lines, (k - 1) as nat) + samples(lines[k - 1])
    }
}

/// The samples of a folded profile.
pub open spec fn samples_total(folded: Seq<char>) -> nat {
    samples_upto(pieces(folded, '\n'), pieces(folded, '\n').len())
}

/// Do the counts of a folded profile fit machine words?
pub open spec fn fits(folded: Seq<char>) -> bool {
    &&& samples_total(folded) <= u64::MAX
    &&& forall|i: int|
        0 <= i < pieces(folded, '\n').len() ==> shaded(#[trigger] pieces(folded, '\n')[i])
}

/// Counts only add up.
proof fn lemma_samples_grow(lines: Seq<Seq<char>>, k: nat, n: nat)
    requires
        k <= n,
    ensures
        samples_upto(lines, k) <= samples_upto(lines, n),
    decreases n,
{
    if k < n {
        lemma_samples_grow(lines, k, (n - 1) as nat);
    }
}

/// The last place where a space stands.
fn find_last_space(s: &Vec<char>) -> (r: Option<usize>)
    ensures
        match r {
            Some(i) => last_space(s@, s@.len()) == Some(i as int) && i < s@.len(),
            None => last_space(s@, s@.len()) is None,
        },
{
    let mut n: usize = s.len();
    while n > 0
        invariant
            n <= s@.len(),
            last_space(s@, s@.len()) == last_space(s@, n as nat),
        decreases n,
    {
        if s[n - 1] == ' ' {
            return Some(n - 1);
        }
        n -= 1;
    }
    None
}

/// Is every character a decimal digit?
fn digits(s: &Vec<char>) -> (r: bool)
    ensures
        r == all_digits(s@),
{
    let mut i: usize = 0;
    while i < s.len()
        invariant
            i <= s@.len(),
            forall|k: int| 0 <= k < i ==> '0' as u32 <= (#[trigger] s@[k]) as u32 <= '9' as u32,
        decreases s@.len() - i,
    {
        let c: u32 = s[i] as u32;
        if c < '0' as u32 || c > '9' as u32 {
            return false;
        }
        i += 1;
    }
    true
}

/// The number that digits write, where it fits.
fn number(s: &Vec<char>) -> (r: Option<u64>)
    requires
        all_digits(s@),
    ensures
        match r {
            Some(n) => n == digits_value(s@),
            None => digits_value(s@) > u64::MAX,
        },
{
    let mut n: u64 = 0;
    let mut i: usize = 0;
    assert(s@.take(0) =~= Seq::<char>::empty());
    while i < s.len()
        invariant
            i <= s@.len(),
            all_digits(s@),
            n == digits_value(s@.take(i as int)),
        decreases s@.len() - i,
    {
        proof {
            assert(s@.take(i + 1).drop_last() =~= s@.take(i as int));
            assert(s@.take(i + 1).last() == s@[i as int]);
            lemma_digits_prefix(s@, i + 1);
        }
        let d: u64 = (s[i] as u32 - '0' as u32) as u64;
        let scaled: u64 = match n.checked_mul(10) {
            Some(v) => v,
            None => {
                return None;
            },
        };
        n = match scaled.checked_add(d) {
            Some(v) => v,
            None => {
                return None;
            },
        };
        i += 1;
    }
    assert(s@.take(i as int) =~= s@);
    Some(n)
}

/// Read the count behind the last space of a line.
fn read_column(line: &Vec<char>) -> (r: Option<(u64, Vec<char>)>)
    ensures
        match r {
            Some(c) => count_column(line@) == Some((c.0 as nat, c.1@)),
            None => count_column(line@) is None,
        },
{
    let at: usize = match find_last_space(line) {
        Some(i) => i,
        None => {
            return None;
        },
    };
    assert(at < line.len());
    let field: Vec<char> = run_of(line, at + 1, line.len());
    assert(field@ =~= line@.skip(at + 1));
    let whole: Vec<char> = match find_char(&field, '.') {
        None => field,
        Some(d) => {
            let tail: Vec<char> = run_of(&field, d + 1, field.len());
            assert(tail@ =~= field@.skip(d + 1));
            if !digits(&tail) {
                return None;
            }
            let head: Vec<char> = run_of(&field, 0, d);
            assert(head@ =~= field@.take(d as int));
            head
        },
    };
    if !digits(&whole) || whole.len() == 0 {
        return None;
    }
    let n: u64 = match number(&whole) {
        Some(n) => n,
        None => {
            return None;
        },
    };
    let before: Vec<char> = run_of(line, 0, at);
    assert(before@ =~= line@.take(at as int));
    Some((n, trim_end(&before)))
}

/// Read the count columns of a line.
fn read_columns(line: &Vec<char>) -> (r: Option<(u64, Option<u64>)>)
    ensures
        match r {
            Some((n, Some(m))) => columns(line@) == Some((n as nat, Some(m as nat))),
            Some((n, None)) => columns(line@) == Some((n as nat, None::<nat>)),
            None => columns(line@) is None,
        },
{
    let l: Vec<char> = trim(line);
    if l.len() >= 2 && l[0] == '#' && l[1] == ' ' {
        return None;
    }
    match read_column(&l) {
        None => None,
        Some((n, rest)) => match read_column(&rest) {
            None => Some((n, None)),
            Some((m, _)) => Some((n, Some(m))),
        },
    }
}

/// Do the counts of a folded profile fit machine words?
pub fn countable(folded: &str) -> (r: bool)
    ensures
        r == fits(folded@),
{
    let lines: Vec<Vec<char>> = split_at(&chars_of(folded), '\n');
    let ghost all = pieces(folded@, '\n');
    let limit: i128 = isize::MAX as i128;
    let mut total: u64 = 0;
    let mut i: usize = 0;
    assert(crate::text::char_lists(lines@).len() == lines@.len());
    while i < lines.len()
        invariant
            i <= lines@.len(),
            limit == isize::MAX,
            crate::text::char_lists(lines@) == all,
            all == pieces(folded@, '\n'),
            lines@.len() == all.len(),
            total == samples_upto(all, i as nat),
            forall|k: int| 0 <= k < i ==> shaded(#[trigger] all[k]),
        decreases lines@.len() - i,
    {
        proof {
            assert(lines@[i as int]@ == crate::text::char_lists(lines@)[i as int]);
            lemma_samples_grow(all, (i + 1) as nat, all.len());
        }
        match read_columns(&lines[i]) {
            None => {},
            Some((n, earlier)) => {
                match earlier {
                    None => {},
                    Some(m) => {
                        let a: i128 = n as i128;
                        let b: i128 = m as i128;
                        if a > limit || b > limit || 150 * (a - b) > limit || 150 * (b - a)
                            > limit {
                            assert(!shaded(all[i as int]));
                            return false;
                        }
                    },
                }
                total = match total.checked_add(n) {
                    Some(t) => t,
                    None => {
                        return false;
                    },
                };
            },
        }
        i += 1;
    }
    true
}

} // verus!
