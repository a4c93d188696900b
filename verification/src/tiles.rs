//! Terrain: tile kinds and the static map from tiles to terrain.

use vstd::prelude::*;

use crate::coords::{in_bounds, Coords};

verus! {

use vstd::std_specs::iter::IteratorSpec;

broadcast use vstd::string::next_postcondition;

/// The terrain of one tile.  Each variant has two fixed properties: whether
/// it blocks line of sight and whether it blocks movement.
#[derive(Debug, Clone, Copy, PartialEq, Eq, Hash, Structural)]
pub enum TileType {
    Floor,
    Wall,
    TallGrass,
    DeepWater,
}

/// Terrain that blocks line of sight: walls and tall grass.
pub open spec fn blocks_sight(t: TileType) -> bool {
    t == TileType::Wall || t == TileType::TallGrass
}

/// Terrain that blocks movement: walls and deep water.
pub open spec fn blocks_walk(t: TileType) -> bool {
    t == TileType::Wall || t == TileType::DeepWater
}

impl TileType {
    /// Whether this terrain blocks line of sight.
    pub fn is_blocking_sight(&self) -> (r: bool)
        ensures
            r == blocks_sight(*self),
    {
        match self {
            TileType::TallGrass | TileType::Wall => true,
            _ => false,
        }
    }

    /// Whether this terrain blocks movement.
    pub fn is_blocking_walk(&self) -> (r: bool)
        ensures
            r == blocks_walk(*self),
    {
        match self {
            TileType::DeepWater | TileType::Wall => true,
            _ => false,
        }
    }
}

/// Which property of the terrain blocks a trace: sight for visibility,
/// movement for walkability.
#[derive(Debug, Clone, Copy, PartialEq, Eq, Structural)]
pub enum BlockingRule {
    Sight,
    Walk,
}

/// Whether terrain `t` blocks under the given rule.
pub open spec fn rule_blocks(rule: BlockingRule, t: TileType) -> bool {
    match rule {
        BlockingRule::Sight => blocks_sight(t),
        BlockingRule::Walk => blocks_walk(t),
    }
}

impl BlockingRule {
    /// Whether terrain `t` blocks under this rule.
    pub fn blocks(&self, t: &TileType) -> (r: bool)
        ensures
            r == rule_blocks(*self, *t),
    {
        match self {
            BlockingRule::Sight => t.is_blocking_sight(),
            BlockingRule::Walk => t.is_blocking_walk(),
        }
    }
}

/// The finite map built from an association list, later entries overriding
/// earlier ones.
pub open spec fn assoc_map(s: Seq<(Coords, TileType)>) -> Map<Coords, TileType>
    decreases s.len(),
{
    if s.len() == 0 {
        Map::<Coords, TileType>::empty()
    } else {
        assoc_map(s.drop_last()).insert(s.last().0, s.last().1)
    }
}

/// No two entries share a key.
pub open spec fn unique_keys(s: Seq<(Coords, TileType)>) -> bool {
    forall|i: int, j: int| 0 <= i < j < s.len() ==> (#[trigger] s[i]).0 != (#[trigger] s[j]).0
}

/// The static terrain map of a game: tile coordinates to terrain, immutable
/// after game creation.
#[derive(Debug, Clone, PartialEq, Eq)]
pub struct TileMap {
    pub tiles: Vec<(Coords, TileType)>,
}

impl View for TileMap {
    type V = Map<Coords, TileType>;

    open spec fn view(&self) -> Map<Coords, TileType> {
        assoc_map(self.tiles@)
    }
}

/// The domain of `assoc_map(s)` is exactly the set of keys of `s`, it is
/// finite, and under `unique_keys` each entry's value is retained.
pub proof fn lemma_assoc_map_properties(s: Seq<(Coords, TileType)>)
    ensures
        assoc_map(s).dom().finite(),
        forall|c: Coords|
            assoc_map(s).dom().contains(c) <==> exists|i: int|
                0 <= i < s.len() && (#[trigger] s[i]).0 == c,
        unique_keys(s) ==> forall|i: int|
            0 <= i < s.len() ==> assoc_map(s)[(#[trigger] s[i]).0] == s[i].1,
        unique_keys(s) ==> assoc_map(s).dom().len() == s.len(),
    decreases s.len(),
{
    if s.len() == 0 {
    } else {
        let prefix = s.drop_last();
        lemma_assoc_map_properties(prefix);
        assert forall|c: Coords| assoc_map(s).dom().contains(c) implies exists|i: int|
            0 <= i < s.len() && (#[trigger] s[i]).0 == c by {
            if c == s.last().0 {
                assert((s[s.len() - 1]).0 == c);
            } else {
                let i = choose|i: int| 0 <= i < prefix.len() && (#[trigger] prefix[i]).0 == c;
                assert((s[i]).0 == c);
            }
        }
        assert forall|c: Coords| (exists|i: int| 0 <= i < s.len() && (#[trigger] s[i]).0 == c)
            implies assoc_map(s).dom().contains(c) by {
            let i = choose|i: int| 0 <= i < s.len() && (#[trigger] s[i]).0 == c;
            if i < s.len() - 1 {
                assert((prefix[i]).0 == c);
            }
        }
        if unique_keys(s) {
            assert(unique_keys(prefix)) by {
                assert(forall|i: int, j: int|
                    0 <= i < j < prefix.len() ==> (#[trigger] prefix[i]).0 == s[i].0
                        && (#[trigger] prefix[j]).0 == s[j].0);
            }
            assert forall|i: int| 0 <= i < s.len() implies assoc_map(s)[(#[trigger] s[i]).0]
                == s[i].1 by {
                if i < s.len() - 1 {
                    assert((prefix[i]).0 == s[i].0 && (prefix[i]).1 == s[i].1);
                    assert(s[i].0 != s.last().0);
                }
            }
            assert(!assoc_map(prefix).dom().contains(s.last().0));
            assert(assoc_map(s).dom() =~= assoc_map(prefix).dom().insert(s.last().0));
            vstd::set::axiom_set_insert_len(assoc_map(prefix).dom(), s.last().0);
        }
    }
}

impl TileMap {
    /// Entries have pairwise distinct keys, all inside the coordinate bound.
    pub open spec fn wf(&self) -> bool {
        unique_keys(self.tiles@) && forall|i: int|
            0 <= i < self.tiles@.len() ==> in_bounds((#[trigger] self.tiles@[i]).0)
    }

    /// An empty map.
    pub fn new() -> (r: TileMap)
        ensures
            r.wf(),
            r@ == Map::<Coords, TileType>::empty(),
            r.tiles@.len() == 0,
    {
        TileMap { tiles: Vec::new() }
    }

    /// The number of mapped tiles.
    pub fn len(&self) -> (r: usize)
        requires
            self.wf(),
        ensures
            r == self@.dom().len(),
    {
        proof {
            lemma_assoc_map_properties(self.tiles@);
        }
        self.tiles.len()
    }

    /// The terrain at `c`, if `c` is mapped.
    pub fn get(&self, c: &Coords) -> (r: Option<TileType>)
        requires
            self.wf(),
        ensures
            match r {
                Some(t) => self@.dom().contains(*c) && self@[*c] == t,
                None => !self@.dom().contains(*c),
            },
    {
        proof {
            lemma_assoc_map_properties(self.tiles@);
        }
        let n = self.tiles.len();
        let mut i: usize = 0;
        while i < n
            invariant
                n == self.tiles@.len(),
                0 <= i <= n,
                self.wf(),
                forall|j: int| 0 <= j < i ==> (#[trigger] self.tiles@[j]).0 != *c,
            decreases n - i,
        {
            if self.tiles[i].0 == *c {
                proof {
                    lemma_assoc_map_properties(self.tiles@);
                }
                return Some(self.tiles[i].1);
            }
            i = i + 1;
        }
        proof {
            if self@.dom().contains(*c) {
                let j = choose|j: int|
                    0 <= j < self.tiles@.len() && (#[trigger] self.tiles@[j]).0 == *c;
                assert(false);
            }
        }
        None
    }

    /// Map `c` to `t`, replacing any previous terrain at `c`.
    pub fn insert(&mut self, c: Coords, t: TileType)
        requires
            old(self).wf(),
            in_bounds(c),
        ensures
            final(self).wf(),
            final(self)@ == old(self)@.insert(c, t),
            final(self).tiles@.len() <= old(self).tiles@.len() + 1,
    {
        let n = self.tiles.len();
        let mut i: usize = 0;
        while i < n
            invariant
                n == self.tiles@.len(),
                0 <= i <= n,
                self.wf(),
                self.tiles@ == old(self).tiles@,
                forall|j: int| 0 <= j < i ==> (#[trigger] self.tiles@[j]).0 != c,
            decreases n - i,
        {
            if self.tiles[i].0 == c {
                self.tiles.set(i, (c, t));
                proof {
                    lemma_assoc_update(old(self).tiles@, i as int, c, t);
                    assert(forall|j: int|
                        0 <= j < self.tiles@.len() ==> (#[trigger] self.tiles@[j]).0 == (
                        old(self).tiles@[j]).0);
                }
                return ;
            }
            i = i + 1;
        }
        self.tiles.push((c, t));
        proof {
            assert(self.tiles@.drop_last() =~= old(self).tiles@);
            assert(forall|j: int|
                0 <= j < old(self).tiles@.len() ==> (#[trigger] self.tiles@[j]).0 == (
                old(self).tiles@[j]).0);
        }
    }

    /// The mapped tile coordinates, in entry order.
    pub fn keys(&self) -> (r: Vec<Coords>)
        requires
            self.wf(),
        ensures
            r@.len() == self.tiles@.len(),
            forall|i: int| 0 <= i < r@.len() ==> r@[i] == (#[trigger] self.tiles@[i]).0,
            forall|c: Coords| r@.contains(c) <==> self@.dom().contains(c),
            r@.no_duplicates(),
    {
        proof {
            lemma_assoc_map_properties(self.tiles@);
        }
        let n = self.tiles.len();
        let mut r: Vec<Coords> = Vec::new();
        let mut i: usize = 0;
        while i < n
            invariant
                n == self.tiles@.len(),
                0 <= i <= n,
                r@.len() == i,
                forall|j: int| 0 <= j < i ==> r@[j] == (#[trigger] self.tiles@[j]).0,
            decreases n - i,
        {
            r.push(self.tiles[i].0);
            i = i + 1;
        }
        proof {
            assert forall|c: Coords| r@.contains(c) implies self@.dom().contains(c) by {
                let j = choose|j: int| 0 <= j < r@.len() && r@[j] == c;
                assert((self.tiles@[j]).0 == c);
            }
            assert forall|c: Coords| self@.dom().contains(c) implies r@.contains(c) by {
                let j = choose|j: int|
                    0 <= j < self.tiles@.len() && (#[trigger] self.tiles@[j]).0 == c;
                assert(r@[j] == c);
            }
            assert forall|i2: int, j2: int| 0 <= i2 < j2 < r@.len() implies r@[i2] != r@[j2] by {
                assert((self.tiles@[i2]).0 != (self.tiles@[j2]).0);
            }
        }
        r
    }
}

/// Updating the entry whose key is `c` updates the association map at `c`.
proof fn lemma_assoc_update(s: Seq<(Coords, TileType)>, i: int, c: Coords, t: TileType)
    requires
        unique_keys(s),
        0 <= i < s.len(),
        s[i].0 == c,
    ensures
        assoc_map(s.update(i, (c, t))) == assoc_map(s).insert(c, t),
    decreases s.len(),
{
    let s2 = s.update(i, (c, t));
    if i == s.len() - 1 {
        assert(s2.drop_last() =~= s.drop_last());
        assert(assoc_map(s2) =~= assoc_map(s).insert(c, t));
    } else {
        assert(unique_keys(s.drop_last())) by {
            assert(forall|p: int, q: int|
                0 <= p < q < s.len() - 1 ==> (#[trigger] s.drop_last()[p]).0 == s[p].0
                    && (#[trigger] s.drop_last()[q]).0 == s[q].0);
        }
        lemma_assoc_update(s.drop_last(), i, c, t);
        assert(s2.drop_last() =~= s.drop_last().update(i, (c, t)));
        assert(s2.last() == s.last());
        assert(s.last().0 != c);
        assert(assoc_map(s2) =~= assoc_map(s).insert(c, t));
    }
}

/// The starting `x` of a text-map row: odd rows are offset by one.
pub open spec fn row_start_x(y: int) -> int {
    if y % 2 == 1 {
        1
    } else {
        0
    }
}

/// The terrain a map character stands for, if any.
pub open spec fn tile_of_char(ch: char) -> Option<TileType> {
    if ch == '.' {
        Some(TileType::Floor)
    } else if ch == 'g' {
        Some(TileType::TallGrass)
    } else if ch == '=' {
        Some(TileType::DeepWater)
    } else if ch == '#' {
        Some(TileType::Wall)
    } else {
        None
    }
}

/// The map described by the text `s`, parsed from cursor position `(x, y)`
/// into the accumulator `m`: rows are separated by newlines, characters
/// advance `x` by two, and recognised characters produce a tile.
pub open spec fn from_text_spec(
    s: Seq<char>,
    x: int,
    y: int,
    m: Map<Coords, TileType>,
) -> Map<Coords, TileType>
    decreases s.len(),
{
    if s.len() == 0 {
        m
    } else if s[0] == '\n' {
        from_text_spec(s.drop_first(), row_start_x(y + 1), y + 1, m)
    } else {
        let m2 = match tile_of_char(s[0]) {
            Some(t) => m.insert(Coords { x: x as i64, y: y as i64 }, t),
            None => m,
        };
        from_text_spec(s.drop_first(), x + 2, y, m2)
    }
}

/// Parse a textual map: `.` floor, `g` tall grass, `=` deep water, `#` wall,
/// anything else (spaces in particular) leaves the tile unmapped.  Rows are
/// newline-separated; `x` advances by two per character and odd rows start
/// at `x == 1`, matching the doubled-width coordinate scheme.
pub fn from_text(text_map: &str) -> (r: TileMap)
    requires
        text_map@.len() <= 40_000,
    ensures
        r.wf(),
        r@ == from_text_spec(text_map@, 0, 0, Map::<Coords, TileType>::empty()),
{
    let mut map = TileMap::new();
    let mut x: i64 = 0;
    let mut y: i64 = 0;
    let mut it = text_map.chars();
    let ghost total: int = text_map@.len() as int;
    loop
        invariant
            it.obeys_prophetic_iter_laws(),
            it.decrease() is Some,
            it.remaining().len() <= total <= 40_000,
            0 <= y <= total - it.remaining().len(),
            0 <= x <= 1 + 2 * (total - it.remaining().len()),
            map.wf(),
            from_text_spec(text_map@, 0, 0, Map::<Coords, TileType>::empty()) == from_text_spec(
                it.remaining(),
                x as int,
                y as int,
                map@,
            ),
        ensures
            map.wf(),
            it.remaining().len() == 0,
            from_text_spec(text_map@, 0, 0, Map::<Coords, TileType>::empty()) == from_text_spec(
                it.remaining(),
                x as int,
                y as int,
                map@,
            ),
        decreases it.decrease()->0,
    {
        let ghost rem_before = it.remaining();
        let next = it.next();
        match next {
            None => {
                break ;
            },
            Some(ch) => {
                assert(rem_before.len() > 0);
                assert(ch == rem_before[0]);
                if ch == '\n' {
                    y = y + 1;
                    if y % 2 == 1 {
                        x = 1;
                    } else {
                        x = 0;
                    }
                    proof {
                        assert(row_start_x(y as int) == x as int);
                    }
                } else {
                    match ch {
                        '.' => map.insert(Coords { x, y }, TileType::Floor),
                        'g' => map.insert(Coords { x, y }, TileType::TallGrass),
                        '=' => map.insert(Coords { x, y }, TileType::DeepWater),
                        '#' => map.insert(Coords { x, y }, TileType::Wall),
                        _ => (),
                    }
                    x = x + 2;
                }
            },
        }
    }
    map
}

} // verus!
