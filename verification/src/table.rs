//! The transposition table: what earlier searches found out about
//! positions, kept under their Zobrist hashes.
//!
//! An entry holds the kind of the node that the search saw. At a `PV` node
//! every move was searched and the value is exact. At a `Cut` node a move was
//! so good that the search stopped: the value is a lower bound. At an `All`
//! node no move reached the lower bound of the search: the value is an upper
//! bound, and there is no best move.

use crate::model::PositionModel;
use crate::moves::Move;
use crate::position::Position;
use crate::value::Value;
use chashmap::CHashMap;
use vstd::prelude::*;

verus! {

/// The kind of a node of the search, with the value found for it.
#[derive(Copy, Clone, Debug, PartialEq, Eq)]
pub enum NodeKind {
    /// An exact value.
    PV(Value),
    /// An upper bound of the value.
    All(Value),
    /// A lower bound of the value.
    Cut(Value),
}

/// What the table keeps of a position.
#[derive(Copy, Clone, Debug)]
pub struct TableEntry {
    /// The Zobrist hash of the position.
    pub zobrist_key: u64,
    /// The best move found, if one was found.
    pub best_move: Option<Move>,
    /// The depth to which the position was searched.
    pub depth: u32,
    /// The kind of the node, and its value.
    pub node: NodeKind,
}

impl TableEntry {
    /// The best move found, if one was found.
    pub fn best_move(&self) -> (r: Option<Move>)
        ensures
            r == self.best_move,
    {
        self.best_move
    }

    /// The depth to which the position was searched.
    pub fn depth(&self) -> (r: u32)
        ensures
            r == self.depth,
    {
        self.depth
    }

    /// The kind of the node, and its value.
    pub fn kind(&self) -> (r: NodeKind)
        ensures
            r == self.node,
    {
        self.node
    }

    /// Whether the entry is of an `All` node.
    pub fn is_all(&self) -> (r: bool)
        ensures
            r == (self.node is All),
    {
        match self.node {
            NodeKind::All(_) => true,
            _ => false,
        }
    }
}

/// The concurrent hash map of the `chashmap` crate.
#[verifier::external_type_specification]
#[verifier::external_body]
#[verifier::reject_recursive_types(K)]
#[verifier::reject_recursive_types(V)]
pub struct ExCHashMap<K, V>(CHashMap<K, V>);

/// The entries that a map holds, by their keys.
pub uninterp spec fn map_contents(entries: CHashMap<u64, TableEntry>) -> Map<u64, TableEntry>;

/// The map that holds nothing.
pub open spec fn no_entries() -> Map<u64, TableEntry> {
    Map::empty()
}

/// `CHashMap::new`: a new map, which holds nothing.
#[verifier::external_body]
fn map_new() -> (fresh: CHashMap<u64, TableEntry>)
    ensures
        map_contents(fresh) == no_entries(),
{
    CHashMap::new()
}

/// `CHashMap::insert`: the map then holds the entry under the key, in place
/// of what it held under that key, and everything else as before.
#[verifier::external_body]
fn map_insert(entries: &mut CHashMap<u64, TableEntry>, key: u64, entry: TableEntry)
    ensures
        map_contents(*final(entries)) == map_contents(*old(entries)).insert(key, entry),
{
    entries.insert(key, entry);
}

/// `CHashMap::get`: a copy of the entry that the map holds under the key, if it holds one.
#[verifier::external_body]
fn map_get(entries: &CHashMap<u64, TableEntry>, key: u64) -> (r: Option<TableEntry>)
    ensures
        r == if map_contents(*entries).contains_key(key) {
            Some(map_contents(*entries)[key])
        } else {
            None
        },
{
    match entries.get(&key) {
        Some(guard) => Some(*guard),
        None => None,
    }
}

/// `CHashMap::clear`: the map then holds nothing.
#[verifier::external_body]
fn map_clear(entries: &mut CHashMap<u64, TableEntry>)
    ensures
        map_contents(*final(entries)) == no_entries(),
{
    entries.clear();
}

/// A transposition table.
pub struct Table {
    map: CHashMap<u64, TableEntry>,
}

impl View for Table {
    type V = Map<u64, TableEntry>;

    /// The entries of the table, by Zobrist hash.
    closed spec fn view(&self) -> Map<u64, TableEntry> {
        map_contents(self.map)
    }
}

/// What the table holds under the key, if it holds anything.
pub open spec fn lookup(entries: Map<u64, TableEntry>, key: u64) -> Option<TableEntry> {
    if entries.contains_key(key) {
        Some(entries[key])
    } else {
        None
    }
}

/// Whether the table takes an `All` entry of the given depth for the key: it
/// holds nothing for the key, or an `All` entry of lesser depth.
pub open spec fn takes_all(entries: Map<u64, TableEntry>, key: u64, depth: u32) -> bool {
    match lookup(entries, key) {
        Some(existing) => existing.node is All && existing.depth < depth,
        None => true,
    }
}

/// The line of best moves that the table holds from the position on: at
/// most `depth` moves, as long as the table holds a best move for the
/// position reached and that move is legal there.
pub open spec fn pv_line(entries: Map<u64, TableEntry>, m: PositionModel, depth: nat) -> Seq<Move>
    decreases depth,
{
    if depth == 0 {
        Seq::empty()
    } else {
        match lookup(entries, m.zobrist()) {
            Some(entry) => match entry.best_move {
                Some(mv) => if m.legal(mv) {
                    seq![mv] + pv_line(entries, m.after_make(mv), (depth - 1) as nat)
                } else {
                    Seq::empty()
                },
                None => Seq::empty(),
            },
            None => Seq::empty(),
        }
    }
}

impl Table {
    /// An empty table.
    pub fn new() -> (t: Table)
        ensures
            t@ == Map::<u64, TableEntry>::empty(),
    {
        Table { map: map_new() }
    }

    /// Records that the position is a `PV` node: the search found the best
    /// move and the exact value. What the table held for the position is replaced.
    pub fn record_pv(&mut self, pos: &Position, best_move: Move, depth: u32, value: Value)
        requires
            pos.wf(),
        ensures
            final(self)@ == old(self)@.insert(
                pos@.zobrist(),
                TableEntry {
                    zobrist_key: pos@.zobrist(),
                    best_move: Some(best_move),
                    depth,
                    node: NodeKind::PV(value),
                },
            ),
    {
        let key = pos.zobrist_hash();
        let entry = TableEntry {
            zobrist_key: key,
            best_move: Some(best_move),
            depth,
            node: NodeKind::PV(value),
        };
        map_insert(&mut self.map, key, entry);
    }

    /// Records that the position is a `Cut` node: the move was good enough
    /// to end the search, and the value is a lower bound. What the table held
    /// for the position is replaced.
    pub fn record_cut(&mut self, pos: &Position, best_move: Move, depth: u32, value: Value)
        requires
            pos.wf(),
        ensures
            final(self)@ == old(self)@.insert(
                pos@.zobrist(),
                TableEntry {
                    zobrist_key: pos@.zobrist(),
                    best_move: Some(best_move),
                    depth,
                    node: NodeKind::Cut(value),
                },
            ),
    {
        let key = pos.zobrist_hash();
        let entry = TableEntry {
            zobrist_key: key,
            best_move: Some(best_move),
            depth,
            node: NodeKind::Cut(value),
        };
        map_insert(&mut self.map, key, entry);
    }

    /// Records that the position is an `All` node: no move reached the
    /// lower bound, and the value is an upper bound. The table keeps what it
    /// holds for the position unless that is an `All` entry of lesser depth.
    pub fn record_all(&mut self, pos: &Position, depth: u32, value: Value)
        requires
            pos.wf(),
        ensures
            final(self)@ == if takes_all(old(self)@, pos@.zobrist(), depth) {
                old(self)@.insert(
                    pos@.zobrist(),
                    TableEntry {
                        zobrist_key: pos@.zobrist(),
                        best_move: None,
                        depth,
                        node: NodeKind::All(value),
                    },
                )
            } else {
                old(self)@
            },
    {
        let key = pos.zobrist_hash();
        match map_get(&self.map, key) {
            Some(existing) => {
                if !existing.is_all() || existing.depth >= depth {
                    return ;
                }
            },
            None => {},
        }
        let entry = TableEntry {
            zobrist_key: key,
            best_move: None,
            depth,
            node: NodeKind::All(value),
        };
        map_insert(&mut self.map, key, entry);
    }

    /// What the table holds for the position, if it holds anything.
    pub fn query(&self, pos: &Position) -> (r: Option<TableEntry>)
        requires
            pos.wf(),
        ensures
            r == lookup(self@, pos@.zobrist()),
    {
        map_get(&self.map, pos.zobrist_hash())
    }

    /// Empties the table.
    pub fn clear(&mut self)
        ensures
            final(self)@ == Map::<u64, TableEntry>::empty(),
    {
        map_clear(&mut self.map);
    }

    /// The line that the table holds from the position on, of at most `depth` moves.
    pub fn get_pv(&self, pos: &Position, depth: u32) -> (pv: Vec<Move>)
        requires
            pos.wf(),
        ensures
            pv@ == pv_line(self@, pos@, depth as nat),
    {
        let ghost goal = pv_line(self@, pos@, depth as nat);
        let mut pv: Vec<Move> = Vec::new();
        let mut pv_clone = pos.clone();
        let mut left = depth;
        while left > 0
            invariant
                pv_clone.wf(),
                goal == pv_line(self@, pos@, depth as nat),
                pv@ + pv_line(self@, pv_clone@, left as nat) == goal,
            decreases left,
        {
            let ghost before = pv@;
            proof {
                pv_clone.lemma_wf_model();
            }
            let best_move = match self.query(&pv_clone) {
                Some(entry) => entry.best_move(),
                None => None,
            };
            match best_move {
                Some(mv) => {
                    if !pv_clone.is_legal(mv) {
                        assert(pv@ + Seq::<Move>::empty() =~= pv@);
                        return pv;
                    }
                    proof {
                        pv_clone@.lemma_pseudo_legal_can_make(mv);
                        assert(before + (seq![mv] + pv_line(
                            self@,
                            pv_clone@.after_make(mv),
                            (left - 1) as nat,
                        )) =~= before.push(mv) + pv_line(
                            self@,
                            pv_clone@.after_make(mv),
                            (left - 1) as nat,
                        ));
                    }
                    pv.push(mv);
                    pv_clone.make_move(mv);
                },
                None => {
                    assert(pv@ + Seq::<Move>::empty() =~= pv@);
                    return pv;
                },
            }
            left -= 1;
        }
        assert(pv@ + Seq::<Move>::empty() =~= pv@);
        pv
    }
}

/// A new, empty table.
pub fn initialize() -> (t: Table)
    ensures
        t@ == Map::<u64, TableEntry>::empty(),
{
    Table::new()
}

/// Empties the table.
pub fn clear(table: &mut Table)
    ensures
        final(table)@ == Map::<u64, TableEntry>::empty(),
{
    table.clear();
}

/// What the table holds for the position, if it holds anything.
pub fn query(table: &Table, pos: &Position) -> (r: Option<TableEntry>)
    requires
        pos.wf(),
    ensures
        r == lookup(table@, pos@.zobrist()),
{
    table.query(pos)
}

/// Records a `PV` node for the position, in place of what the table held for it.
pub fn record_pv(table: &mut Table, pos: &Position, best_move: Move, depth: u32, value: Value)
    requires
        pos.wf(),
    ensures
        final(table)@ == old(table)@.insert(
            pos@.zobrist(),
            TableEntry {
                zobrist_key: pos@.zobrist(),
                best_move: Some(best_move),
                depth,
                node: NodeKind::PV(value),
            },
        ),
{
    table.record_pv(pos, best_move, depth, value);
}

/// Records a `Cut` node for the position, in place of what the table held for it.
pub fn record_cut(table: &mut Table, pos: &Position, best_move: Move, depth: u32, value: Value)
    requires
        pos.wf(),
    ensures
        final(table)@ == old(table)@.insert(
            pos@.zobrist(),
            TableEntry {
                zobrist_key: pos@.zobrist(),
                best_move: Some(best_move),
                depth,
                node: NodeKind::Cut(value),
            },
        ),
{
    table.record_cut(pos, best_move, depth, value);
}

/// Records an `All` node for the position, unless the table holds
/// something for it that is not an `All` entry of lesser depth.
pub fn record_all(table: &mut Table, pos: &Position, depth: u32, value: Value)
    requires
        pos.wf(),
    ensures
        final(table)@ == if takes_all(old(table)@, pos@.zobrist(), depth) {
            old(table)@.insert(
                pos@.zobrist(),
                TableEntry {
                    zobrist_key: pos@.zobrist(),
                    best_move: None,
                    depth,
                    node: NodeKind::All(value),
                },
            )
        } else {
            old(table)@
        },
{
    table.record_all(pos, depth, value);
}

/// The line that the table holds from the position on, of at most `depth` moves.
pub fn get_pv(table: &Table, pos: &Position, depth: u32) -> (pv: Vec<Move>)
    requires
        pos.wf(),
    ensures
        pv@ == pv_line(table@, pos@, depth as nat),
{
    table.get_pv(pos, depth)
}

} // verus!
