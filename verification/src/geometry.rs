use vstd::prelude::*;

verus! {

/// A tile of the level grid, addressed by integer coordinates.
#[derive(Clone, Copy, Debug, PartialEq, Eq, Structural)]
pub struct TilePos {
    pub x: i32,
    pub y: i32,
}

impl TilePos {
    pub fn new(x: i32, y: i32) -> (r: TilePos)
        ensures
            r.x == x,
            r.y == y,
    {
        TilePos { x, y }
    }

    /// The tile `dx` columns and `dy` rows away.
    pub fn offset(self, dx: i32, dy: i32) -> (r: TilePos)
        requires
            i32::MIN <= self.x + dx <= i32::MAX,
            i32::MIN <= self.y + dy <= i32::MAX,
        ensures
            r.x == self.x + dx,
            r.y == self.y + dy,
    {
        TilePos { x: self.x + dx, y: self.y + dy }
    }

    /// Tile equality, field by field.
    pub fn same(&self, other: &TilePos) -> (r: bool)
        ensures
            r == (*self == *other),
    {
        self.x == other.x && self.y == other.y
    }
}

} // verus!

verus! {

/// Something that lies on a tile of the level.
pub trait Placed {
    spec fn place(&self) -> TilePos;

    fn tile(&self) -> (r: TilePos)
        ensures
            r == self.place(),
    ;
}

/// The first item of `s` on tile `t`, or -1.
pub open spec fn index_at<T: Placed>(s: Seq<T>, t: TilePos) -> int
    decreases s.len(),
{
    if s.len() == 0 {
        -1
    } else {
        let r = index_at(s.drop_last(), t);
        if r >= 0 {
            r
        } else if s.last().place() == t {
            s.len() - 1
        } else {
            -1
        }
    }
}

/// No two items of `s` share a tile.
pub open spec fn distinct_places<T: Placed>(s: Seq<T>) -> bool {
    forall|i: int, j: int| 0 <= i < j < s.len() ==> s[i].place() != s[j].place()
}

/// An index found on a tile is -1 or the index of an item on that tile.
pub proof fn lemma_index_at_range<T: Placed>(s: Seq<T>, t: TilePos)
    ensures
        -1 <= index_at(s, t) < s.len(),
        index_at(s, t) >= 0 ==> s[index_at(s, t)].place() == t,
    decreases s.len(),
{
    if s.len() > 0 {
        lemma_index_at_range(s.drop_last(), t);
    }
}

proof fn lemma_index_at_first<T: Placed>(s: Seq<T>, t: TilePos, k: int)
    requires
        0 <= k <= s.len(),
        forall|j: int| 0 <= j < k ==> s[j].place() != t,
        k < s.len() ==> s[k].place() == t,
    ensures
        index_at(s, t) == (if k < s.len() { k } else { -1 }),
    decreases s.len(),
{
    if s.len() > 0 {
        let pre = s.drop_last();
        if k < s.len() - 1 {
            lemma_index_at_first(pre, t, k);
        } else {
            lemma_index_at_first(pre, t, pre.len() as int);
        }
    }
}

/// When no two items share a tile, the item at `d` is the one found on its tile.
pub proof fn lemma_index_at_unique<T: Placed>(s: Seq<T>, d: int)
    requires
        distinct_places(s),
        0 <= d < s.len(),
    ensures
        index_at(s, s[d].place()) == d,
{
    lemma_index_at_first(s, s[d].place(), d);
}

/// The first item of `v` on tile `t`.
pub fn find_at<T: Placed>(v: &Vec<T>, t: TilePos) -> (r: Option<usize>)
    ensures
        match r {
            Some(i) => index_at(v@, t) == i && i < v@.len(),
            None => index_at(v@, t) == -1,
        },
{
    let mut k: usize = 0;
    while k < v.len()
        invariant
            k <= v@.len(),
            forall|j: int| 0 <= j < k ==> v@[j].place() != t,
        decreases v@.len() - k,
    {
        if v[k].tile().same(&t) {
            proof {
                lemma_index_at_first(v@, t, k as int);
            }
            return Some(k);
        }
        k = k + 1;
    }
    proof {
        lemma_index_at_first(v@, t, k as int);
    }
    None
}

/// Whether no two items of `v` share a tile.
pub fn all_places_distinct<T: Placed>(v: &Vec<T>) -> (r: bool)
    ensures
        r == distinct_places(v@),
{
    let mut i: usize = 0;
    while i < v.len()
        invariant
            i <= v@.len(),
            forall|a: int, b: int| 0 <= a < b < v@.len() && a < i ==> v@[a].place() != v@[b].place(),
        decreases v@.len() - i,
    {
        let ti = v[i].tile();
        let mut j: usize = i + 1;
        while j < v.len()
            invariant
                i < j <= v@.len(),
                ti == v@[i as int].place(),
                forall|a: int, b: int| 0 <= a < b < v@.len() && a < i ==> v@[a].place() != v@[b].place(),
                forall|b: int| i < b < j ==> v@[i as int].place() != v@[b].place(),
            decreases v@.len() - j,
        {
            if ti.same(&v[j].tile()) {
                return false;
            }
            j = j + 1;
        }
        i = i + 1;
    }
    true
}

} // verus!
