//! Chain loader support: deciding which entries of the extension directory
//! are loadable libraries. The surrounding process lists the directory and
//! attempts to load every candidate in listing order; one failed load never
//! hides the remaining candidates, since the candidate list is fixed before
//! any load is attempted.

use vstd::prelude::*;

use crate::generator::seq_views;

verus! {

/// ASCII lowercase of one character.
pub open spec fn lower_char(c: char) -> char {
    if 'A' <= c && c <= 'Z' {
        (((c as u8) + 32) as char)
    } else {
        c
    }
}

/// Index of the last `.` in `n`, or -1 when there is none.
pub open spec fn last_dot(n: Seq<char>) -> int
    decreases n.len(),
{
    if n.len() == 0 {
        -1
    } else if n.last() == '.' {
        n.len() - 1
    } else {
        last_dot(n.drop_last())
    }
}

/// Whether a file name carries the library extension: a `.` stands after
/// the first character, and what follows the last `.` is exactly `dll`,
/// compared case-insensitively.
pub open spec fn is_dll_name(n: Seq<char>) -> bool {
    let k = last_dot(n);
    &&& k >= 1
    &&& n.len() - k == 4
    &&& lower_char(n[k + 1]) == 'd'
    &&& lower_char(n[k + 2]) == 'l'
    &&& lower_char(n[k + 3]) == 'l'
}

/// The names with the library extension, in listing order.
pub open spec fn dll_filter(ns: Seq<Seq<char>>) -> Seq<Seq<char>>
    decreases ns.len(),
{
    if ns.len() == 0 {
        Seq::empty()
    } else {
        dll_filter(ns.drop_last()) + (if is_dll_name(ns.last()) {
            seq![ns.last()]
        } else {
            Seq::<Seq<char>>::empty()
        })
    }
}

/// Whether this directory entry's name has the library extension `dll`,
/// case-insensitively.
pub fn is_dll_file_name(name: &str) -> (b: bool)
    ensures
        b == is_dll_name(name@),
{
    let n = name.unicode_len();
    let mut i: usize = 0;
    let mut dot: usize = 0;
    let mut has_dot = false;
    while i < n
        invariant
            n == name@.len(),
            i <= n,
            has_dot ==> dot < i,
            last_dot(name@.take(i as int)) == (if has_dot {
                dot as int
            } else {
                -1
            }),
        decreases n - i,
    {
        proof {
            assert(name@.take(i + 1).drop_last() =~= name@.take(i as int));
            assert(name@.take(i + 1).last() == name@[i as int]);
        }
        if name.get_char(i) == '.' {
            dot = i;
            has_dot = true;
        }
        i += 1;
    }
    proof {
        assert(name@.take(n as int) =~= name@);
    }
    if !has_dot {
        return false;
    }
    let k = dot;
    if k < 1 {
        return false;
    }
    if n - k != 4 {
        return false;
    }
    let c1 = name.get_char(k + 1);
    let c2 = name.get_char(k + 2);
    let c3 = name.get_char(k + 3);
    (c1 == 'd' || c1 == 'D') && (c2 == 'l' || c2 == 'L') && (c3 == 'l' || c3 == 'L')
}

/// The entries of the extension directory that are to be loaded: exactly
/// those whose extension is `dll` (case-insensitively), in directory-listing
/// order. The list is computed in full before any load is attempted, so a
/// failure loading one candidate cannot affect which others are attempted.
pub fn dll_candidates(entries: &Vec<String>) -> (r: Vec<String>)
    ensures
        seq_views(r@) == dll_filter(seq_views(entries@)),
{
    let mut r: Vec<String> = Vec::new();
    let mut i: usize = 0;
    proof {
        assert(seq_views(entries@).take(0) =~= Seq::<Seq<char>>::empty());
        assert(seq_views(r@) =~= dll_filter(seq_views(entries@).take(0)));
    }
    while i < entries.len()
        invariant
            i <= entries@.len(),
            seq_views(r@) == dll_filter(seq_views(entries@).take(i as int)),
        decreases entries@.len() - i,
    {
        let ghost pre = seq_views(entries@).take(i as int);
        proof {
            assert(seq_views(entries@).take(i + 1).drop_last() =~= pre);
            assert(seq_views(entries@).take(i + 1).last() == entries@[i as int]@);
        }
        if is_dll_file_name(entries[i].as_str()) {
            let ghost pre_r = r@;
            r.push(entries[i].clone());
            proof {
                assert(seq_views(r@) =~~= seq_views(pre_r).push(entries@[i as int]@));
                assert(seq_views(r@) =~~= dll_filter(seq_views(entries@).take(i + 1)));
            }
        } else {
            proof {
                assert(dll_filter(seq_views(entries@).take(i + 1)) =~= dll_filter(pre));
            }
        }
        i += 1;
    }
    proof {
        assert(seq_views(entries@).take(entries@.len() as int) =~= seq_views(entries@));
    }
    r
}

} // verus!
