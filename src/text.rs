//! The text form of a grid.
//!
//! Records are separated by `;` and their fields by single spaces. The first
//! record holds the width and the height, the second the two scrap banks, and
//! then comes one record per cell, row by row, with seven fields: scrap, owner
//! code (1 for the first player, -1 for nobody, anything else for the second
//! player), unit count, recycler flag, and three flags that are not kept.
//! A field is an integer with an optional `-` or `+`; white space around it
//! (a line break at the end of the text, say) is ignored.
use vstd::prelude::*;
use crate::tile::{TileOwner, Tile};

verus! {

/// The pieces of `s` between separators: those already closed and the one
/// still open at the end of `s`.
pub open spec fn split_acc(s: Seq<u8>, sep: u8) -> (Seq<Seq<u8>>, Seq<u8>)
    decreases s.len(),
{
    if s.len() == 0 {
        (Seq::empty(), Seq::empty())
    } else {
        let r = split_acc(s.drop_last(), sep);
        if s.last() == sep {
            (r.0.push(r.1), Seq::empty())
        } else {
            (r.0, r.1.push(s.last()))
        }
    }
}

/// The pieces of `s` between the separators `sep` (one more than there are
/// separators).
pub open spec fn split(s: Seq<u8>, sep: u8) -> Seq<Seq<u8>> {
    let r = split_acc(s, sep);
    r.0.push(r.1)
}

pub open spec fn is_digit(b: u8) -> bool {
    48 <= b <= 57
}

pub open spec fn all_digits(d: Seq<u8>) -> bool {
    forall|i: int| 0 <= i < d.len() ==> is_digit(#[trigger] d[i])
}

/// The value of a string of decimal digits.
pub open spec fn digits_value(d: Seq<u8>) -> int
    decreases d.len(),
{
    if d.len() == 0 {
        0
    } else {
        digits_value(d.drop_last()) * 10 + (d.last() - 48)
    }
}

/// ASCII white space: tab, line feed, vertical tab, form feed, carriage return
/// and space.
pub open spec fn is_space(b: u8) -> bool {
    b == 9 || b == 10 || b == 11 || b == 12 || b == 13 || b == 32
}

/// `f` without the white space at its start.
pub open spec fn trim_front(f: Seq<u8>) -> Seq<u8>
    decreases f.len(),
{
    if f.len() > 0 && is_space(f[0]) {
        trim_front(f.drop_first())
    } else {
        f
    }
}

/// `f` without the white space at its end.
pub open spec fn trim_back(f: Seq<u8>) -> Seq<u8>
    decreases f.len(),
{
    if f.len() > 0 && is_space(f.last()) {
        trim_back(f.drop_last())
    } else {
        f
    }
}

/// The integer a string spells: an optional `-` or `+` then one digit or more,
/// within the range of `i32`.
pub open spec fn number_value(f: Seq<u8>) -> Option<int> {
    let signed = f.len() > 0 && (f[0] == 45 || f[0] == 43);
    let d = if signed { f.drop_first() } else { f };
    let v = if f.len() > 0 && f[0] == 45 { -digits_value(d) } else { digits_value(d) };
    if d.len() > 0 && all_digits(d) && i32::MIN <= v <= i32::MAX {
        Some(v)
    } else {
        None
    }
}

/// The integer a field spells once the white space around it is removed.
pub open spec fn field_value(f: Seq<u8>) -> Option<int> {
    number_value(trim_back(trim_front(f)))
}

/// Field `j` of record `r`.
pub open spec fn field(r: Seq<u8>, j: int) -> Option<int> {
    let fs = split(r, 32);
    if 0 <= j < fs.len() {
        field_value(fs[j])
    } else {
        None
    }
}

/// A cell record has its first seven fields.
pub open spec fn cell_ok(r: Seq<u8>) -> bool {
    forall|j: int| 0 <= j < 7 ==> (#[trigger] field(r, j)) is Some
}

pub open spec fn owner_of(code: int) -> TileOwner {
    if code == 1 {
        TileOwner::Me
    } else if code == -1 {
        TileOwner::No
    } else {
        TileOwner::Enemy
    }
}

/// The cell a record describes; the second player's units are stored negated.
pub open spec fn tile_of(r: Seq<u8>) -> Tile {
    let owner = owner_of(field(r, 1).unwrap());
    let m = field(r, 2).unwrap();
    Tile {
        scrap_amount: field(r, 0).unwrap() as i32,
        recycler: field(r, 3).unwrap() == 1,
        units: (if owner == TileOwner::Enemy { -m } else { m }) as i64,
        delta_units: 0,
        owner,
    }
}

/// What a text describes.
pub struct GridText {
    pub w: usize,
    pub h: usize,
    pub my_scrap: i32,
    pub enemy_scrap: i32,
    pub tiles: Seq<Tile>,
}

/// The grid a text describes, if it describes one: the header fields are
/// integers, the size is not negative and has fewer than `i32::MAX` cells, and
/// there is a well-formed record for each cell. Records after those are not read.
pub open spec fn parse_grid(t: Seq<u8>) -> Option<GridText> {
    let rs = split(t, 59);
    if rs.len() < 2 {
        None
    } else {
        let w = field(rs[0], 0);
        let h = field(rs[0], 1);
        let a = field(rs[1], 0);
        let b = field(rs[1], 1);
        if w is None || h is None || a is None || b is None {
            None
        } else {
            let n = w.unwrap() * h.unwrap();
            if w.unwrap() < 0 || h.unwrap() < 0 || n >= i32::MAX || rs.len() < 2 + n {
                None
            } else if exists|i: int| 0 <= i < n && !cell_ok(#[trigger] rs[2 + i]) {
                None
            } else {
                Some(
                    GridText {
                        w: w.unwrap() as usize,
                        h: h.unwrap() as usize,
                        my_scrap: a.unwrap() as i32,
                        enemy_scrap: b.unwrap() as i32,
                        tiles: Seq::new(n as nat, |i: int| tile_of(rs[2 + i])),
                    },
                )
            }
        }
    }
}

/// The grid an ASCII text describes; no other text describes one.
pub open spec fn load_text(c: Seq<char>) -> Option<GridText> {
    if vstd::utf8::is_ascii_chars(c) {
        parse_grid(Seq::new(c.len(), |i: int| c[i] as u8))
    } else {
        None
    }
}

/// Ranges of the pieces of `t[lo..hi]` between the separators `sep`.
pub fn split_ranges(t: &[u8], lo: usize, hi: usize, sep: u8) -> (r: Vec<(usize, usize)>)
    requires
        lo <= hi <= t@.len(),
    ensures
        r@.len() == split(t@.subrange(lo as int, hi as int), sep).len(),
        forall|k: int|
            0 <= k < r@.len() ==> lo <= (#[trigger] r@[k]).0 <= r@[k].1 <= hi && t@.subrange(
                r@[k].0 as int,
                r@[k].1 as int,
            ) == split(t@.subrange(lo as int, hi as int), sep)[k],
{
    let mut r: Vec<(usize, usize)> = Vec::new();
    let mut start = lo;
    let mut i = lo;
    while i < hi
        invariant
            lo <= start <= i <= hi <= t@.len(),
            ({
                let a = split_acc(t@.subrange(lo as int, i as int), sep);
                &&& a.0.len() == r@.len()
                &&& forall|k: int|
                    0 <= k < r@.len() ==> lo <= (#[trigger] r@[k]).0 <= r@[k].1 <= hi && t@.subrange(
                        r@[k].0 as int,
                        r@[k].1 as int,
                    ) == a.0[k]
                &&& a.1 == t@.subrange(start as int, i as int)
            }),
        decreases hi - i,
    {
        let ghost s1 = t@.subrange(lo as int, i + 1);
        assert(s1.drop_last() =~= t@.subrange(lo as int, i as int));
        assert(s1.last() == t@[i as int]);
        if t[i] == sep {
            r.push((start, i));
            start = i + 1;
            assert(t@.subrange(start as int, i + 1) =~= Seq::<u8>::empty());
        } else {
            assert(t@.subrange(start as int, i as int).push(t@[i as int]) =~= t@.subrange(start as int, i + 1));
        }
        i = i + 1;
    }
    r.push((start, hi));
    r
}

proof fn lemma_digits_grow(d: Seq<u8>)
    requires
        d.len() > 0,
        all_digits(d),
        digits_value(d.drop_last()) >= 0,
    ensures
        digits_value(d) >= digits_value(d.drop_last()),
{
    assert(is_digit(d[d.len() - 1]));
}

fn is_space_byte(c: u8) -> (r: bool)
    ensures
        r == is_space(c),
{
    c == 9 || c == 10 || c == 11 || c == 12 || c == 13 || c == 32
}

/// The integer the field `t[lo..hi]` spells, if any.
pub fn field_at(t: &[u8], lo: usize, hi: usize) -> (r: Option<i32>)
    requires
        lo <= hi <= t@.len(),
    ensures
        field_value(t@.subrange(lo as int, hi as int)) is None ==> r is None,
        field_value(t@.subrange(lo as int, hi as int)) is Some ==> r == Some(
            field_value(t@.subrange(lo as int, hi as int)).unwrap() as i32,
        ),
{
    let mut a = lo;
    while a < hi && is_space_byte(t[a])
        invariant
            lo <= a <= hi <= t@.len(),
            trim_front(t@.subrange(lo as int, hi as int)) == trim_front(t@.subrange(a as int, hi as int)),
        decreases hi - a,
    {
        assert(t@.subrange(a as int, hi as int).drop_first() =~= t@.subrange(a + 1, hi as int));
        a = a + 1;
    }
    assert(trim_front(t@.subrange(a as int, hi as int)) == t@.subrange(a as int, hi as int));
    let mut b = hi;
    while b > a && is_space_byte(t[b - 1])
        invariant
            a <= b <= hi <= t@.len(),
            trim_back(t@.subrange(a as int, hi as int)) == trim_back(t@.subrange(a as int, b as int)),
        decreases b - a,
    {
        assert(t@.subrange(a as int, b as int).drop_last() =~= t@.subrange(a as int, b - 1));
        b = b - 1;
    }
    assert(trim_back(t@.subrange(a as int, b as int)) == t@.subrange(a as int, b as int));
    number_at(t, a, b)
}

/// The integer `t[lo..hi]` spells, if any.
fn number_at(t: &[u8], lo: usize, hi: usize) -> (r: Option<i32>)
    requires
        lo <= hi <= t@.len(),
    ensures
        number_value(t@.subrange(lo as int, hi as int)) is None ==> r is None,
        number_value(t@.subrange(lo as int, hi as int)) is Some ==> r == Some(
            number_value(t@.subrange(lo as int, hi as int)).unwrap() as i32,
        ),
{
    let ghost f = t@.subrange(lo as int, hi as int);
    let neg = lo < hi && t[lo] == 45;
    let signed = lo < hi && (t[lo] == 45 || t[lo] == 43);
    let start = if signed { lo + 1 } else { lo };
    let ghost d = t@.subrange(start as int, hi as int);
    assert(signed ==> f.drop_first() =~= d);
    assert(!signed ==> f =~= d);
    if start >= hi {
        return None;
    }
    let mut v: i64 = 0;
    let mut big = false;
    let mut i = start;
    assert(t@.subrange(start as int, start as int) =~= Seq::<u8>::empty());
    while i < hi
        invariant
            lo <= start <= i <= hi <= t@.len(),
            start == if signed { lo + 1 } else { lo as int },
            d == t@.subrange(start as int, hi as int),
            f == t@.subrange(lo as int, hi as int),
            neg == (lo < hi && t@[lo as int] == 45),
            signed == (lo < hi && (t@[lo as int] == 45 || t@[lo as int] == 43)),
            signed ==> f.drop_first() == d,
            !signed ==> f == d,
            all_digits(t@.subrange(start as int, i as int)),
            digits_value(t@.subrange(start as int, i as int)) >= 0,
            big ==> digits_value(t@.subrange(start as int, i as int)) > 0x8000_0000,
            !big ==> v == digits_value(t@.subrange(start as int, i as int)) && 0 <= v <= 0x8000_0000,
        decreases hi - i,
    {
        let ghost p = t@.subrange(start as int, i + 1);
        assert(p.drop_last() =~= t@.subrange(start as int, i as int));
        assert(p.last() == t@[i as int]);
        let c = t[i];
        if c < 48 || c > 57 {
            assert(!is_digit(d[i - start]));
            assert(f.len() == hi - lo);
            assert(lo < hi ==> f[0] == t@[lo as int]);
            return None;
        }
        assert(all_digits(p));
        proof {
            lemma_digits_grow(p);
        }
        if !big {
            let nv = v * 10 + (c - 48) as i64;
            if nv > 0x8000_0000 {
                big = true;
            } else {
                v = nv;
            }
        }
        i = i + 1;
    }
    assert(t@.subrange(start as int, i as int) =~= d);
    if big {
        return None;
    }
    let val: i64 = if neg { -v } else { v };
    if val < i32::MIN as i64 || val > i32::MAX as i64 {
        return None;
    }
    Some(val as i32)
}

/// Field `j` of the record `t[lo..hi]`, if it spells an integer.
pub fn record_field(t: &[u8], lo: usize, hi: usize, j: usize) -> (r: Option<i32>)
    requires
        lo <= hi <= t@.len(),
    ensures
        field(t@.subrange(lo as int, hi as int), j as int) is None ==> r is None,
        field(t@.subrange(lo as int, hi as int), j as int) is Some ==> r == Some(
            field(t@.subrange(lo as int, hi as int), j as int).unwrap() as i32,
        ),
{
    let fs = split_ranges(t, lo, hi, 32);
    if j < fs.len() {
        let (a, b) = fs[j];
        assert(fs@[j as int] == (a, b));
        field_at(t, a, b)
    } else {
        None
    }
}

/// The cell the record `t[lo..hi]` describes, if it is well formed.
pub fn tile_at(t: &[u8], lo: usize, hi: usize) -> (r: Option<Tile>)
    requires
        lo <= hi <= t@.len(),
    ensures
        !cell_ok(t@.subrange(lo as int, hi as int)) ==> r is None,
        cell_ok(t@.subrange(lo as int, hi as int)) ==> r == Some(tile_of(t@.subrange(lo as int, hi as int))),
{
    let ghost rec = t@.subrange(lo as int, hi as int);
    let mut vals: Vec<i32> = Vec::new();
    let mut j: usize = 0;
    while j < 7
        invariant
            lo <= hi <= t@.len(),
            rec == t@.subrange(lo as int, hi as int),
            j <= 7,
            vals@.len() == j,
            forall|k: int| 0 <= k < j ==> (#[trigger] field(rec, k)) is Some && vals@[k] == field(rec, k).unwrap() as i32,
        decreases 7 - j,
    {
        match record_field(t, lo, hi, j) {
            Some(v) => {
                vals.push(v);
            },
            None => {
                assert(!(field(rec, j as int) is Some));
                return None;
            },
        }
        j = j + 1;
    }
    let owner = if vals[1] == 1 {
        TileOwner::Me
    } else if vals[1] == -1 {
        TileOwner::No
    } else {
        TileOwner::Enemy
    };
    let m = vals[2] as i64;
    let units = if vals[1] != 1 && vals[1] != -1 { -m } else { m };
    Some(Tile { scrap_amount: vals[0], recycler: vals[3] == 1, units, delta_units: 0, owner })
}

} // verus!
