//! The occupied squares of a board: a hash map from square name to piece
//! code.

use vstd::prelude::*;
use vstd::hash_map::StringHashMap;

verus! {

/// Square names mapped to piece codes.
pub struct PieceMap {
    map: StringHashMap<String>,
}

impl View for PieceMap {
    type V = Map<Seq<char>, Seq<char>>;

    closed spec fn view(&self) -> Map<Seq<char>, Seq<char>> {
        Map::new(|k: Seq<char>| self.map@.contains_key(k), |k: Seq<char>| self.map@[k]@)
    }
}

impl PieceMap {
    /// The invariant of the type: the map has finitely many keys.
    #[verifier::type_invariant]
    pub closed spec fn wf(&self) -> bool {
        self.map@.dom().finite()
    }

    /// An empty map.
    pub fn new() -> (m: PieceMap)
        ensures
            m@ == Map::<Seq<char>, Seq<char>>::empty(),
    {
        let m = PieceMap { map: StringHashMap::new() };
        proof {
            assert(m@ =~= Map::<Seq<char>, Seq<char>>::empty());
        }
        m
    }

    /// The number of pairs. There are finitely many.
    pub fn len(&self) -> (n: usize)
        ensures
            self@.dom().finite(),
            n == self@.dom().len(),
    {
        proof {
            use_type_invariant(self);
            assert(self@.dom() =~= self.map@.dom());
        }
        self.map.len()
    }

    /// The piece code stored under `square`, if any.
    pub fn get(&self, square: &str) -> (piece: Option<&String>)
        ensures
            match piece {
                Some(p) => self@.contains_key(square@) && self@[square@] == p@,
                None => !self@.contains_key(square@),
            },
    {
        self.map.get(square)
    }

    /// Stores `piece` under `square`, replacing what was stored there.
    pub fn insert(&mut self, square: String, piece: String)
        ensures
            final(self)@ == old(self)@.insert(square@, piece@),
    {
        proof {
            use_type_invariant(&*self);
        }
        let ghost before = self@;
        let ghost key = square@;
        let ghost code = piece@;
        let mut map: StringHashMap<String> = StringHashMap::new();
        std::mem::swap(&mut self.map, &mut map);
        map.insert(square, piece);
        self.map = map;
        proof {
            assert(self@ =~= before.insert(key, code));
        }
    }
}

} // verus!
