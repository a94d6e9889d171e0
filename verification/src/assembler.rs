//! Section layout, symbol resolution and image emission.
//!
//! The parsed item stream is normalized to open with a `.text` header,
//! split into maximal section groups, and laid out: the header words are
//! `entry_point = start_text = 3` and `start_data = 3 +` the number of
//! encoded instructions. Labels are bound in two walks, text groups first,
//! then data groups, and duplicates are fatal. Emission writes the three
//! header words, every encoded instruction in source order, then the data
//! words.

use crate::codec;
use crate::codec::bytes_of_word;
use crate::codec::encode_i;
use crate::codec::encode_j;
use crate::codec::encode_r;
use crate::codec::write_code;
use crate::groups_view;
use crate::items_view;
use crate::parser::parse;
use crate::parser::spec_parse_err;
use crate::parser::spec_parse_from;
use crate::AsmError;
use crate::AsmErrorV;
use crate::Binary;
use crate::Endian;
use crate::FileHeader;
use crate::HeaderV;
use crate::Instruction;
use crate::ItemV;
use crate::Operand;
use crate::OperandV;
use crate::Operation;
use crate::SectionType;
use crate::SectionV;
use vstd::prelude::*;

verus! {

/// Fold that groups labeled elements, index by index: a `true` label
/// joins the open run, a `false` label opens a new run, and `true` labels
/// ahead of the first `false` one are dropped. Yields the closed runs,
/// the still-open run and whether one is open, all as element indices.
pub open spec fn rin_fold(bs: Seq<bool>) -> (Seq<Seq<int>>, Seq<int>, bool)
    decreases bs.len(),
{
    if bs.len() == 0 {
        (Seq::empty(), Seq::empty(), false)
    } else {
        let prev = rin_fold(bs.drop_last());
        let i = bs.len() - 1;
        if bs.last() {
            if prev.2 {
                (prev.0, prev.1.push(i), true)
            } else {
                prev
            }
        } else {
            if prev.2 {
                (prev.0.push(prev.1), seq![i], true)
            } else {
                (prev.0, seq![i], true)
            }
        }
    }
}

/// The index groups a labeling produces, the still-open run closed: one
/// group per `false` label, each running to the next `false` label.
pub open spec fn spec_rinclusive_groups(bs: Seq<bool>) -> Seq<Seq<int>> {
    let folded = rin_fold(bs);
    if folded.2 {
        folded.0.push(folded.1)
    } else {
        folded.0
    }
}

/// While no run is open, the fold has produced nothing.
proof fn lemma_rin_fold_not_started(bs: Seq<bool>)
    ensures
        !rin_fold(bs).2 ==> rin_fold(bs).0 == Seq::<Seq<int>>::empty() && rin_fold(bs).1
            == Seq::<int>::empty(),
    decreases bs.len(),
{
    if bs.len() > 0 {
        lemma_rin_fold_not_started(bs.drop_last());
    }
}

/// A borrowed run holds exactly the elements at the given indices.
pub open spec fn run_matches<T>(g: Seq<&T>, xs: Seq<T>, idx: Seq<int>) -> bool {
    g.len() == idx.len() && forall|j: int|
        0 <= j < idx.len() ==> (0 <= #[trigger] idx[j] < xs.len() && *g[j] == xs[idx[j]])
}

/// Borrowed runs hold exactly the elements at the given index groups.
pub open spec fn runs_match<T>(gs: Seq<Vec<&T>>, xs: Seq<T>, idxs: Seq<Seq<int>>) -> bool {
    gs.len() == idxs.len() && forall|g: int|
        0 <= g < gs.len() ==> run_matches(gs[g]@, xs, #[trigger] idxs[g])
}

/// Split a vector into runs that each begin at an element the predicate
/// rejects: the result is exactly the grouping of some labeling of the
/// elements by the predicate's outcomes. [`split_sections`] is the
/// concrete form of this for item groups; this generic form serves
/// callers that bring their own predicate.
pub trait SplitRInclusive<T, F: Fn(&T) -> bool> where Self: View<V = Seq<T>> {
    fn split_rinclusive(&self, f: F) -> (r: Vec<Vec<&T>>)
        requires
            forall|x: &T| #[trigger] call_requires(f, (x,)),
        ensures
            exists|bs: Seq<bool>|
                {
                    &&& bs.len() == self@.len()
                    &&& (forall|i: int|
                        0 <= i < bs.len() ==> call_ensures(f, (&self@[i],), #[trigger] bs[i]))
                    &&& runs_match(r@, self@, spec_rinclusive_groups(bs))
                },
    ;
}

impl<T, F: Fn(&T) -> bool> SplitRInclusive<T, F> for Vec<T> {
    /// Elements the predicate accepts join the current run; each rejected
    /// element opens a new run; accepted elements ahead of the first
    /// rejected one are dropped (so a predicate that rejects nothing
    /// yields no runs at all).
    fn split_rinclusive(&self, f: F) -> (r: Vec<Vec<&T>>) {
        let mut output: Vec<Vec<&T>> = Vec::new();
        let mut cur: Vec<&T> = Vec::new();
        let mut started = false;
        let mut i: usize = 0;
        let ghost mut bs: Seq<bool> = Seq::empty();
        while i < self.len()
            invariant
                forall|x: &T| #[trigger] call_requires(f, (x,)),
                i <= self@.len(),
                bs.len() == i,
                forall|k: int| 0 <= k < i ==> call_ensures(f, (&self@[k],), #[trigger] bs[k]),
                started == rin_fold(bs).2,
                runs_match(output@, self@, rin_fold(bs).0),
                run_matches(cur@, self@, rin_fold(bs).1),
            decreases self@.len() - i,
        {
            let ghost bs0 = bs;
            let v = &self[i];
            let keep = f(v);
            proof {
                assert(call_ensures(f, (&self@[i as int],), keep));
                bs = bs.push(keep);
                assert(bs.drop_last() =~= bs0);
                assert(bs.last() == keep && bs.len() - 1 == i);
            }
            if keep {
                if started {
                    cur.push(v);
                    proof {
                        assert(run_matches(cur@, self@, rin_fold(bs0).1.push(i as int)));
                    }
                }
            } else {
                if started {
                    output.push(cur);
                    cur = Vec::new();
                    proof {
                        assert(runs_match(
                            output@,
                            self@,
                            rin_fold(bs0).0.push(rin_fold(bs0).1),
                        ));
                    }
                }
                proof {
                    lemma_rin_fold_not_started(bs0);
                }
                cur.push(v);
                started = true;
                proof {
                    assert(run_matches(cur@, self@, seq![i as int]));
                }
            }
            i = i + 1;
        }
        if started {
            output.push(cur);
            proof {
                assert(runs_match(output@, self@, spec_rinclusive_groups(bs)));
            }
        }
        proof {
            assert(bs.len() == self@.len());
            assert(runs_match(output@, self@, spec_rinclusive_groups(bs)));
        }
        output
    }
}

/// A `.text` or `.data` directive: the two items that head a group.
pub open spec fn is_header_item(i: ItemV) -> bool {
    i == ItemV::Section(SectionV::Text) || i == ItemV::Section(SectionV::Data)
}

/// An item that encodes to one instruction word.
pub open spec fn is_instr_item(i: ItemV) -> bool {
    i matches ItemV::I { .. } || i matches ItemV::R { .. } || i matches ItemV::J { .. }
}

/// Executable test for a group header.
fn is_header(i: &Instruction) -> (r: bool)
    ensures
        r == is_header_item(i@),
{
    match i {
        Instruction::Section(SectionType::Text) => true,
        Instruction::Section(SectionType::Data) => true,
        _ => false,
    }
}

/// The index of the first group header at or after `from`, or the length.
pub open spec fn next_header(items: Seq<ItemV>, from: int) -> int
    decreases items.len() - from,
{
    if from >= items.len() {
        items.len() as int
    } else if is_header_item(items[from]) {
        from
    } else {
        next_header(items, from + 1)
    }
}

/// The item stream split into maximal groups, each opened by the `.text`
/// or `.data` header it starts with.
pub open spec fn spec_split(items: Seq<ItemV>) -> Seq<Seq<ItemV>>
    decreases items.len(),
{
    if items.len() == 0 {
        Seq::empty()
    } else {
        let e = next_header(items, 1);
        if 1 <= e <= items.len() {
            seq![items.subrange(0, e)] + spec_split(items.skip(e))
        } else {
            seq![items]
        }
    }
}

/// How many instruction words a group of items emits.
pub open spec fn count_instrs(items: Seq<ItemV>) -> int
    decreases items.len(),
{
    if items.len() == 0 {
        0
    } else {
        (if is_instr_item(items[0]) {
            1int
        } else {
            0int
        }) + count_instrs(items.skip(1))
    }
}

/// How many instruction words all groups together emit.
pub open spec fn count_instrs_groups(groups: Seq<Seq<ItemV>>) -> int
    decreases groups.len(),
{
    if groups.len() == 0 {
        0
    } else {
        count_instrs(groups[0]) + count_instrs_groups(groups.skip(1))
    }
}

/// An address bumped by a weight, saturating at the top of the word range.
pub open spec fn sat_add(c: int, w: int) -> int {
    if c + w > 0x7FFF_FFFF {
        0x7FFF_FFFF
    } else {
        c + w
    }
}

/// How many zero words a `.space` of `n` bytes stores: `n / 4`, rounded
/// down, and none for a negative count.
pub open spec fn space_words(n: Binary) -> int {
    if n <= 0 {
        0
    } else {
        n / 4
    }
}

/// How many words an item advances the layout counter by: in a data group
/// `.word` stores its list and `.space` its zero fill; anything else
/// (and everything in a text group) counts one word.
pub open spec fn item_weight(item: ItemV, data_mode: bool) -> int {
    if data_mode {
        match item {
            ItemV::Section(SectionV::Word(v)) => v.len() as int,
            ItemV::Section(SectionV::Space(n)) => space_words(n),
            _ => 1,
        }
    } else {
        1
    }
}

/// Walk the items of one group: label definitions bind the current
/// counter (a duplicate name is the error), every other item advances it
/// by its weight.
pub open spec fn walk_items(
    items: Seq<ItemV>,
    data_mode: bool,
    counter: int,
    acc: Map<Seq<char>, Binary>,
) -> Result<(Map<Seq<char>, Binary>, int), Seq<char>>
    decreases items.len(),
{
    if items.len() == 0 {
        Ok((acc, counter))
    } else {
        match items[0] {
            ItemV::LabelDef { name } => {
                if acc.contains_key(name) {
                    Err(name)
                } else {
                    walk_items(items.skip(1), data_mode, counter, acc.insert(name, counter as i32))
                }
            },
            _ => walk_items(
                items.skip(1),
                data_mode,
                sat_add(counter, item_weight(items[0], data_mode)),
                acc,
            ),
        }
    }
}

/// Does a group belong to the walked kind?
pub open spec fn group_is_kind(g: Seq<ItemV>, data_mode: bool) -> bool {
    g.len() > 0 && g[0] == (if data_mode {
        ItemV::Section(SectionV::Data)
    } else {
        ItemV::Section(SectionV::Text)
    })
}

/// Walk every group of one kind in source order, threading the counter
/// and the bindings through.
pub open spec fn walk_groups(
    groups: Seq<Seq<ItemV>>,
    data_mode: bool,
    counter: int,
    acc: Map<Seq<char>, Binary>,
) -> Result<(Map<Seq<char>, Binary>, int), Seq<char>>
    decreases groups.len(),
{
    if groups.len() == 0 {
        Ok((acc, counter))
    } else if group_is_kind(groups[0], data_mode) {
        match walk_items(groups[0].skip(1), data_mode, counter, acc) {
            Err(n) => Err(n),
            Ok((acc2, c2)) => walk_groups(groups.skip(1), data_mode, c2, acc2),
        }
    } else {
        walk_groups(groups.skip(1), data_mode, counter, acc)
    }
}

/// The label-to-address table, with unique names.
pub struct SymbolTable {
    entries: Vec<(String, Binary)>,
}

/// The bindings an entry list holds, later entries winning.
pub open spec fn map_of(es: Seq<(String, Binary)>) -> Map<Seq<char>, Binary>
    decreases es.len(),
{
    if es.len() == 0 {
        Map::empty()
    } else {
        map_of(es.drop_last()).insert(es.last().0@, es.last().1)
    }
}

impl View for SymbolTable {
    type V = Map<Seq<char>, Binary>;

    closed spec fn view(&self) -> Map<Seq<char>, Binary> {
        map_of(self.entries@)
    }
}

/// Entries beyond `i` that never mention `k` leave the lookup of `k`
/// untouched.
proof fn lemma_map_of_prefix(es: Seq<(String, Binary)>, i: int, k: Seq<char>)
    requires
        0 <= i <= es.len(),
        forall|j: int| i <= j < es.len() ==> es[j].0@ != k,
    ensures
        map_of(es).contains_key(k) == map_of(es.take(i)).contains_key(k),
        map_of(es).contains_key(k) ==> map_of(es)[k] == map_of(es.take(i))[k],
    decreases es.len() - i,
{
    if i == es.len() {
        assert(es.take(i) =~= es);
    } else {
        lemma_map_of_prefix(es, i + 1, k);
        assert(es.take(i + 1).drop_last() =~= es.take(i));
        assert(es.take(i + 1).last() == es[i]);
    }
}

impl SymbolTable {
    /// An empty table.
    pub fn new() -> (r: Self)
        ensures
            r@ == Map::<Seq<char>, Binary>::empty(),
    {
        SymbolTable { entries: Vec::new() }
    }

    /// The address a name is bound to, if any.
    pub fn get(&self, name: &String) -> (r: Option<Binary>)
        ensures
            r == (if self@.contains_key(name@) {
                Some(self@[name@])
            } else {
                None::<Binary>
            }),
    {
        let mut i = self.entries.len();
        while i > 0
            invariant
                i <= self.entries@.len(),
                forall|j: int| i <= j < self.entries@.len() ==> self.entries@[j].0@ != name@,
            decreases i,
        {
            i = i - 1;
            if self.entries[i].0 == *name {
                proof {
                    lemma_map_of_prefix(self.entries@, i + 1, name@);
                    assert(self.entries@.take(i + 1).drop_last() =~= self.entries@.take(i as int));
                    assert(self.entries@.take(i + 1).last() == self.entries@[i as int]);
                }
                return Some(self.entries[i].1);
            }
        }
        proof {
            lemma_map_of_prefix(self.entries@, 0, name@);
            assert(self.entries@.take(0) =~= Seq::<(String, Binary)>::empty());
        }
        None
    }

    /// Bind a fresh name.
    pub fn insert(&mut self, name: String, value: Binary)
        ensures
            final(self)@ == old(self)@.insert(name@, value),
    {
        self.entries.push((name, value));
        proof {
            assert(self.entries@.drop_last() =~= old(self).entries@);
        }
    }
}

/// The next group header stands between `from` and the end.
proof fn lemma_next_header_bounds(items: Seq<ItemV>, from: int)
    requires
        0 <= from <= items.len(),
    ensures
        from <= next_header(items, from) <= items.len(),
    decreases items.len() - from,
{
    if from < items.len() && !is_header_item(items[from]) {
        lemma_next_header_bounds(items, from + 1);
    }
}

/// Split the item stream into its section groups: each group starts with
/// the `.text` or `.data` header that opened it and runs to the next
/// header.
pub fn split_sections(items: Vec<Instruction>) -> (r: Vec<Vec<Instruction>>)
    requires
        items@.len() > 0,
        is_header_item(items@[0]@),
    ensures
        groups_view(r@) == spec_split(items_view(items@)),
{
    let ghost full = items_view(items@);
    let mut rem = items;
    let mut groups: Vec<Vec<Instruction>> = Vec::new();
    proof {
        assert(groups_view(groups@) + spec_split(items_view(rem@)) =~= spec_split(full));
    }
    while rem.len() > 0
        invariant
            rem@.len() > 0 ==> is_header_item(rem@[0]@),
            spec_split(full) == groups_view(groups@) + spec_split(items_view(rem@)),
        decreases rem@.len(),
    {
        let ghost snap = items_view(rem@);
        let mut cur: Vec<Instruction> = Vec::new();
        let ghost rv0 = rem@;
        let first = rem.remove(0);
        cur.push(first);
        proof {
            assert(rem@ =~= rv0.subrange(1, rv0.len() as int));
            assert forall|j: int| 0 <= j < rem@.len() implies items_view(rem@)[j] == snap[1
                + j] by {
                assert(rem@[j] == rv0[j + 1]);
            }
            assert(items_view(rem@) =~= snap.skip(1));
            assert(items_view(cur@) =~= snap.subrange(0, 1));
        }
        while rem.len() > 0 && !is_header(&rem[0])
            invariant
                1 <= cur@.len() <= snap.len(),
                cur@.len() + rem@.len() == snap.len(),
                items_view(cur@) == snap.subrange(0, cur@.len() as int),
                items_view(rem@) == snap.skip(cur@.len() as int),
                next_header(snap, 1) == next_header(snap, cur@.len() as int),
            decreases rem@.len(),
        {
            let ghost k = cur@.len() as int;
            proof {
                assert(items_view(rem@)[0] == snap[k]);
                assert(!is_header_item(snap[k]));
                assert(next_header(snap, k) == next_header(snap, k + 1));
            }
            let ghost rv = rem@;
            let it = rem.remove(0);
            cur.push(it);
            proof {
                assert(rem@ =~= rv.subrange(1, rv.len() as int));
                assert forall|j: int| 0 <= j < rem@.len() implies items_view(rem@)[j] == snap[k + 1
                    + j] by {
                    assert(rem@[j] == rv[j + 1]);
                    assert(items_view(rv)[j + 1] == snap.skip(k)[j + 1]);
                }
                assert(items_view(rem@) =~= snap.skip(k + 1));
                assert forall|j: int| 0 <= j < cur@.len() implies items_view(cur@)[j] == snap[j] by {
                    if j < k {
                        assert(items_view(cur@.drop_last())[j] == snap.subrange(0, k)[j]);
                    }
                }
                assert(items_view(cur@) =~= snap.subrange(0, k + 1));
            }
        }
        proof {
            let k = cur@.len() as int;
            lemma_next_header_bounds(snap, 1);
            if rem.len() > 0 {
                assert(items_view(rem@)[0] == snap[k]);
                assert(is_header_item(snap[k]));
                assert(next_header(snap, k) == k);
            } else {
                assert(next_header(snap, k) == k);
            }
            assert(spec_split(snap) == seq![snap.subrange(0, k)] + spec_split(snap.skip(k)));
            assert(groups_view(groups@.push(cur)) =~= groups_view(groups@) + seq![
                items_view(cur@),
            ]);
            assert(groups_view(groups@) + (seq![snap.subrange(0, k)] + spec_split(snap.skip(k)))
                =~= (groups_view(groups@) + seq![items_view(cur@)]) + spec_split(snap.skip(k)));
        }
        groups.push(cur);
    }
    proof {
        assert(spec_split(items_view(rem@)) =~= Seq::<Seq<ItemV>>::empty());
        assert(groups_view(groups@) + Seq::<Seq<ItemV>>::empty() =~= groups_view(groups@));
    }
    groups
}

/// Every group count is non-negative.
proof fn lemma_count_nonneg(items: Seq<ItemV>)
    ensures
        0 <= count_instrs(items) <= items.len(),
    decreases items.len(),
{
    if items.len() > 0 {
        lemma_count_nonneg(items.skip(1));
    }
}

/// The total count over groups is non-negative.
proof fn lemma_count_groups_nonneg(groups: Seq<Seq<ItemV>>)
    ensures
        0 <= count_instrs_groups(groups),
    decreases groups.len(),
{
    if groups.len() > 0 {
        lemma_count_nonneg(groups[0]);
        lemma_count_groups_nonneg(groups.skip(1));
    }
}

/// Executable test for an instruction item.
fn is_instr(i: &Instruction) -> (r: bool)
    ensures
        r == is_instr_item(i@),
{
    match i {
        Instruction::I { .. } => true,
        Instruction::R { .. } => true,
        Instruction::J { .. } => true,
        _ => false,
    }
}

impl FileHeader {
    /// The header the given section groups lay out to: entry point and
    /// text start are the three header words themselves, and the data
    /// section starts after every instruction word.
    pub fn new(sections: &Vec<Vec<Instruction>>) -> (r: Self)
        ensures
            r@ == (HeaderV {
                entry_point: 3,
                start_text: 3,
                start_data: sat_add(3, count_instrs_groups(groups_view(sections@))) as i32,
            }),
    {
        let ghost gv = groups_view(sections@);
        let ghost total = count_instrs_groups(gv);
        let mut count: u64 = 0;
        let mut g: usize = 0;
        proof {
            assert(gv.skip(0) =~= gv);
            lemma_count_groups_nonneg(gv);
        }
        while g < sections.len()
            invariant
                g <= sections@.len(),
                gv == groups_view(sections@),
                total == count_instrs_groups(gv),
                count <= 0x7FFF_FFFD,
                ({
                    let done = total - count_instrs_groups(gv.skip(g as int));
                    (done <= 0x7FFF_FFFD && count == done) || (done > 0x7FFF_FFFD && count
                        == 0x7FFF_FFFD)
                }),
            decreases sections@.len() - g,
        {
            let grp = &sections[g];
            let ghost items = items_view(grp@);
            let mut k: usize = 0;
            proof {
                lemma_count_groups_nonneg(gv.skip(g as int));
                lemma_count_groups_nonneg(gv.skip(g + 1));
                lemma_count_nonneg(items);
                assert(gv.skip(g as int)[0] == items);
                assert(gv.skip(g as int).skip(1) =~= gv.skip(g + 1));
                assert(items.skip(0) =~= items);
            }
            while k < grp.len()
                invariant
                    k <= grp@.len(),
                    items == items_view(grp@),
                    gv == groups_view(sections@),
                    total == count_instrs_groups(gv),
                    count <= 0x7FFF_FFFD,
                    ({
                        let done = total - count_instrs(items.skip(k as int))
                            - count_instrs_groups(gv.skip(g + 1));
                        (done <= 0x7FFF_FFFD && count == done) || (done > 0x7FFF_FFFD && count
                            == 0x7FFF_FFFD)
                    }),
                decreases grp@.len() - k,
            {
                proof {
                    lemma_count_nonneg(items.skip(k + 1));
                    lemma_count_groups_nonneg(gv.skip(g + 1));
                    assert(items.skip(k as int)[0] == items[k as int]);
                    assert(items.skip(k as int).skip(1) =~= items.skip(k + 1));
                }
                if is_instr(&grp[k]) {
                    if count < 0x7FFF_FFFD {
                        count = count + 1;
                    }
                }
                k = k + 1;
            }
            proof {
                assert(items.skip(grp@.len() as int) =~= Seq::<ItemV>::empty());
            }
            g = g + 1;
        }
        proof {
            assert(gv.skip(sections@.len() as int) =~= Seq::<Seq<ItemV>>::empty());
        }
        let start_data: Binary = if count >= 0x7FFF_FFFD {
            0x7FFF_FFFF
        } else {
            3 + (count as i32)
        };
        FileHeader { entry_point: 3, start_text: 3, start_data }
    }

    /// Append the three header words to the output.
    pub fn write_code(&self, endian: Endian, output: &mut Vec<u8>)
        ensures
            final(output)@ == old(output)@ + bytes_of_word(endian, self@.entry_point)
                + bytes_of_word(endian, self@.start_text) + bytes_of_word(endian, self@.start_data),
    {
        write_code(endian, self.entry_point, output);
        write_code(endian, self.start_text, output);
        write_code(endian, self.start_data, output);
    }
}

/// Advance the layout counter by one item's weight, executable form.
fn bump_counter(c: Binary, item: &Instruction, data_mode: bool) -> (r: Binary)
    requires
        c >= 0,
    ensures
        r == sat_add(c as int, item_weight(item@, data_mode)),
        r >= 0,
{
    let w: Binary = if data_mode {
        match item {
            Instruction::Section(SectionType::Word(v)) => {
                if v.len() >= 0x7FFF_FFFF {
                    return 0x7FFF_FFFF;
                }
                v.len() as i32
            },
            Instruction::Section(SectionType::Space(n)) => {
                if *n <= 0 {
                    0
                } else {
                    ((*n as u32) / 4) as i32
                }
            },
            _ => 1,
        }
    } else {
        1
    };
    let s: i64 = (c as i64) + (w as i64);
    if s > 0x7FFF_FFFF {
        0x7FFF_FFFF
    } else {
        s as i32
    }
}

/// Walk one kind of section group and bind its labels, executable form.
fn walk_kind(
    sections: &Vec<Vec<Instruction>>,
    data_mode: bool,
    start: Binary,
    table: SymbolTable,
) -> (r: Result<SymbolTable, AsmError>)
    requires
        start >= 0,
    ensures
        ({
            let sp = walk_groups(groups_view(sections@), data_mode, start as int, table@);
            match r {
                Ok(t2) => sp is Ok && t2@ == sp->Ok_0.0,
                Err(e) => sp is Err && (e matches AsmError::DuplicateLabel(n) && n@
                    == sp->Err_0),
            }
        }),
{
    let mut tab = table;
    let ghost gv = groups_view(sections@);
    let ghost target = walk_groups(gv, data_mode, start as int, tab@);
    let mut counter: Binary = start;
    let mut g: usize = 0;
    proof {
        assert(gv.skip(0) =~= gv);
    }
    while g < sections.len()
        invariant
            g <= sections@.len(),
            counter >= 0,
            gv == groups_view(sections@),
            target == walk_groups(gv, data_mode, start as int, table@),
            target == walk_groups(gv.skip(g as int), data_mode, counter as int, tab@),
        decreases sections@.len() - g,
    {
        let grp = &sections[g];
        let ghost items = items_view(grp@);
        proof {
            assert(gv.skip(g as int)[0] == items);
            assert(gv.skip(g as int).skip(1) =~= gv.skip(g + 1));
        }
        let in_kind = if grp.len() == 0 {
            false
        } else if data_mode {
            match &grp[0] {
                Instruction::Section(SectionType::Data) => true,
                _ => false,
            }
        } else {
            match &grp[0] {
                Instruction::Section(SectionType::Text) => true,
                _ => false,
            }
        };
        if in_kind {
            let mut k: usize = 1;
            proof {
                assert forall|j: int| 0 <= j < items.skip(1).len() implies items.skip(1)[j]
                    == items_view(grp@)[j + 1] by {}
                assert(items.skip(1).skip(0) =~= items.skip(1));
            }
            while k < grp.len()
                invariant
                    1 <= k <= grp@.len(),
                    counter >= 0,
                    items == items_view(grp@),
                    gv == groups_view(sections@),
                    target == walk_groups(gv, data_mode, start as int, table@),
                    target == (match walk_items(
                        items.skip(1).skip(k - 1),
                        data_mode,
                        counter as int,
                        tab@,
                    ) {
                        Err(n) => Err(n),
                        Ok((acc2, c2)) => walk_groups(gv.skip(g + 1), data_mode, c2, acc2),
                    }),
                decreases grp@.len() - k,
            {
                proof {
                    assert(items.skip(1).skip(k - 1)[0] == items[k as int]);
                    assert(items.skip(1).skip(k - 1).skip(1) =~= items.skip(1).skip(k as int));
                }
                match &grp[k] {
                    Instruction::LabelDef { name } => {
                        match tab.get(name) {
                            Some(_) => {
                                proof {
                                    assert(items[k as int] == (ItemV::LabelDef { name: name@ }));
                                    assert(target is Err && target->Err_0 == name@);
                                }
                                let dup = AsmError::DuplicateLabel(name.clone());
                                proof {
                                    assert(dup matches AsmError::DuplicateLabel(n) && n@
                                        == target->Err_0);
                                }
                                return Err(dup);
                            },
                            None => {
                                tab.insert(name.clone(), counter);
                            },
                        }
                    },
                    _ => {
                        counter = bump_counter(counter, &grp[k], data_mode);
                    },
                }
                k = k + 1;
            }
            proof {
                assert(items.skip(1).skip(grp@.len() - 1) =~= Seq::<ItemV>::empty());
            }
        }
        g = g + 1;
    }
    proof {
        assert(gv.skip(sections@.len() as int) =~= Seq::<Seq<ItemV>>::empty());
    }
    Ok(tab)
}

/// Build the symbol table for the given groups: text labels first from
/// the header's text start, then data labels from its data start. A name
/// bound twice is fatal.
pub fn gen_symbol_table(sections: &Vec<Vec<Instruction>>, file_header: &FileHeader) -> (r: Result<
    SymbolTable,
    AsmError,
>)
    requires
        file_header@.start_text >= 0,
        file_header@.start_data >= 0,
    ensures
        ({
            let sp = spec_symbols_from(
                groups_view(sections@),
                file_header@.start_text as int,
                file_header@.start_data as int,
            );
            match r {
                Ok(t) => sp is Ok && t@ == sp->Ok_0,
                Err(e) => sp is Err && (e matches AsmError::DuplicateLabel(n) && n@
                    == sp->Err_0),
            }
        }),
{
    let table = SymbolTable::new();
    let table = match walk_kind(sections, false, file_header.start_text, table) {
        Err(e) => {
            return Err(e);
        },
        Ok(t) => t,
    };
    let table = match walk_kind(sections, true, file_header.start_data, table) {
        Err(e) => {
            return Err(e);
        },
        Ok(t) => t,
    };
    Ok(table)
}

/// The whole symbol table from explicit start addresses.
pub open spec fn spec_symbols_from(
    groups: Seq<Seq<ItemV>>,
    start_text: int,
    start_data: int,
) -> Result<Map<Seq<char>, Binary>, Seq<char>> {
    match walk_groups(groups, false, start_text, Map::empty()) {
        Err(n) => Err(n),
        Ok((m, _)) => match walk_groups(groups, true, start_data, m) {
            Err(n) => Err(n),
            Ok((m2, _)) => Ok(m2),
        },
    }
}

/// A run of zero words.
pub open spec fn zero_words(n: int) -> Seq<Binary> {
    Seq::new(
        (if n < 0 {
            0
        } else {
            n
        }) as nat,
        |i: int| 0i32,
    )
}

/// The data words one group's items store: `.word` payloads and `.space`
/// zero fill, in source order.
pub open spec fn data_of_items(items: Seq<ItemV>) -> Seq<Binary>
    decreases items.len(),
{
    if items.len() == 0 {
        Seq::empty()
    } else {
        (match items[0] {
            ItemV::Section(SectionV::Word(v)) => v,
            ItemV::Section(SectionV::Space(n)) => zero_words(space_words(n)),
            _ => Seq::empty(),
        }) + data_of_items(items.skip(1))
    }
}

/// The whole data section: the stored words of every data group in source
/// order.
pub open spec fn data_of_groups(groups: Seq<Seq<ItemV>>) -> Seq<Binary>
    decreases groups.len(),
{
    if groups.len() == 0 {
        Seq::empty()
    } else {
        (if group_is_kind(groups[0], true) {
            data_of_items(groups[0].skip(1))
        } else {
            Seq::empty()
        }) + data_of_groups(groups.skip(1))
    }
}

/// Collect the data section of the given groups.
pub fn get_data_section(sections: &Vec<Vec<Instruction>>) -> (r: Vec<Binary>)
    ensures
        r@ == data_of_groups(groups_view(sections@)),
{
    let ghost gv = groups_view(sections@);
    let mut out: Vec<Binary> = Vec::new();
    let mut g: usize = 0;
    proof {
        assert(gv.skip(0) =~= gv);
        assert(out@ + data_of_groups(gv) =~= data_of_groups(gv));
    }
    while g < sections.len()
        invariant
            g <= sections@.len(),
            gv == groups_view(sections@),
            data_of_groups(gv) == out@ + data_of_groups(gv.skip(g as int)),
        decreases sections@.len() - g,
    {
        let grp = &sections[g];
        let ghost items = items_view(grp@);
        proof {
            assert(gv.skip(g as int)[0] == items);
            assert(gv.skip(g as int).skip(1) =~= gv.skip(g + 1));
        }
        let in_kind = if grp.len() == 0 {
            false
        } else {
            match &grp[0] {
                Instruction::Section(SectionType::Data) => true,
                _ => false,
            }
        };
        if in_kind {
            let mut k: usize = 1;
            proof {
                assert(items.skip(1).skip(0) =~= items.skip(1));
            }
            while k < grp.len()
                invariant
                    1 <= k <= grp@.len(),
                    items == items_view(grp@),
                    gv == groups_view(sections@),
                    data_of_groups(gv) == out@ + data_of_items(items.skip(1).skip(k - 1))
                        + data_of_groups(gv.skip(g + 1)),
                decreases grp@.len() - k,
            {
                proof {
                    assert(items.skip(1).skip(k - 1)[0] == items[k as int]);
                    assert(items.skip(1).skip(k - 1).skip(1) =~= items.skip(1).skip(k as int));
                }
                match &grp[k] {
                    Instruction::Section(SectionType::Word(v)) => {
                        let mut j: usize = 0;
                        proof {
                            assert(items[k as int] matches ItemV::Section(SectionV::Word(w2))
                                && w2 == v@);
                            assert(out@ + v@.skip(0) =~= out@ + v@);
                        }
                        while j < v.len()
                            invariant
                                j <= v@.len(),
                                items == items_view(grp@),
                                gv == groups_view(sections@),
                                data_of_groups(gv) == (out@ + v@.skip(j as int)) + data_of_items(
                                    items.skip(1).skip(k as int),
                                ) + data_of_groups(gv.skip(g + 1)),
                            decreases v@.len() - j,
                        {
                            proof {
                                assert(v@.skip(j as int)[0] == v@[j as int]);
                                assert(v@.skip(j as int).skip(1) =~= v@.skip(j + 1));
                                assert((out@ + v@.skip(j as int)) =~= (out@.push(v@[j as int])
                                    + v@.skip(j + 1)));
                            }
                            let w = v[j];
                            out.push(w);
                            j = j + 1;
                        }
                        proof {
                            assert(v@.skip(v@.len() as int) =~= Seq::<Binary>::empty());
                            assert(out@ + Seq::<Binary>::empty() =~= out@);
                        }
                    },
                    Instruction::Section(SectionType::Space(n)) => {
                        let count: u32 = if *n <= 0 {
                            0
                        } else {
                            (*n as u32) / 4
                        };
                        proof {
                            assert(items[k as int] matches ItemV::Section(SectionV::Space(n2))
                                && n2 == *n);
                            assert(count == space_words(*n));
                        }
                        let mut j: u32 = 0;
                        proof {
                            assert(out@ + zero_words(count as int).skip(0) =~= out@ + zero_words(
                                count as int,
                            ));
                        }
                        while j < count
                            invariant
                                j <= count,
                                items == items_view(grp@),
                                gv == groups_view(sections@),
                                data_of_groups(gv) == (out@ + zero_words(count as int).skip(
                                    j as int,
                                )) + data_of_items(items.skip(1).skip(k as int)) + data_of_groups(
                                    gv.skip(g + 1),
                                ),
                            decreases count - j,
                        {
                            proof {
                                assert(zero_words(count as int).skip(j as int)[0] == 0i32);
                                assert(zero_words(count as int).skip(j as int).skip(1)
                                    =~= zero_words(count as int).skip(j + 1));
                                assert((out@ + zero_words(count as int).skip(j as int)) =~= (
                                out@.push(0i32) + zero_words(count as int).skip(j + 1)));
                            }
                            out.push(0);
                            j = j + 1;
                        }
                        proof {
                            assert(zero_words(count as int).skip(count as int) =~= Seq::<
                                Binary,
                            >::empty());
                            assert(out@ + Seq::<Binary>::empty() =~= out@);
                        }
                    },
                    _ => {
                        proof {
                            assert(data_of_items(items.skip(1).skip(k - 1)) == Seq::<
                                Binary,
                            >::empty() + data_of_items(items.skip(1).skip(k as int)));
                            assert(Seq::<Binary>::empty() + data_of_items(items.skip(1).skip(
                                k as int,
                            )) =~= data_of_items(items.skip(1).skip(k as int)));
                        }
                    },
                }
                k = k + 1;
            }
            proof {
                assert(items.skip(1).skip(grp@.len() - 1) =~= Seq::<ItemV>::empty());
                assert(out@ + Seq::<Binary>::empty() + data_of_groups(gv.skip(g + 1)) =~= out@
                    + data_of_groups(gv.skip(g + 1)));
            }
        }
        g = g + 1;
    }
    proof {
        assert(gv.skip(sections@.len() as int) =~= Seq::<Seq<ItemV>>::empty());
        assert(out@ + Seq::<Binary>::empty() =~= out@);
    }
    out
}

/// The byte image of a word sequence in the given byte order.
pub open spec fn words_bytes(e: Endian, ws: Seq<Binary>) -> Seq<u8>
    decreases ws.len(),
{
    if ws.len() == 0 {
        Seq::empty()
    } else {
        bytes_of_word(e, ws[0]) + words_bytes(e, ws.skip(1))
    }
}

/// Append the serialized form of every word to the output.
pub fn write_data_section(endian: Endian, codes: &Vec<Binary>, output: &mut Vec<u8>)
    ensures
        final(output)@ == old(output)@ + words_bytes(endian, codes@),
{
    let mut i: usize = 0;
    proof {
        assert(codes@.skip(0) =~= codes@);
        assert(old(output)@ + Seq::<u8>::empty() =~= old(output)@);
    }
    while i < codes.len()
        invariant
            i <= codes@.len(),
            old(output)@ + words_bytes(endian, codes@) == output@ + words_bytes(
                endian,
                codes@.skip(i as int),
            ),
        decreases codes@.len() - i,
    {
        proof {
            assert(codes@.skip(i as int)[0] == codes@[i as int]);
            assert(codes@.skip(i as int).skip(1) =~= codes@.skip(i + 1));
        }
        write_code(endian, codes[i], output);
        proof {
            assert((output@ + words_bytes(endian, codes@.skip(i + 1))) =~= (output@ + words_bytes(
                endian,
                codes@.skip(i + 1),
            )));
        }
        i = i + 1;
    }
    proof {
        assert(codes@.skip(codes@.len() as int) =~= Seq::<Binary>::empty());
        assert(output@ + Seq::<u8>::empty() =~= output@);
    }
}

/// What an operand resolves to: registers and constants are their value, a
/// label is looked up; an unbound label is the error.
pub open spec fn resolve_operand(o: OperandV, m: Map<Seq<char>, Binary>) -> Result<
    Binary,
    Seq<char>,
> {
    match o {
        OperandV::Register(b) => Ok(b),
        OperandV::Constant(b) => Ok(b),
        OperandV::Label(n) => if m.contains_key(n) {
            Ok(m[n])
        } else {
            Err(n)
        },
    }
}

impl Operand {
    /// Resolve this operand against the symbol table.
    pub fn to_binary(&self, symbol_table: &SymbolTable) -> (r: Result<Binary, AsmError>)
        ensures
            ({
                let sp = resolve_operand(self@, symbol_table@);
                match r {
                    Ok(b) => sp == Ok::<Binary, Seq<char>>(b),
                    Err(e) => sp is Err && (e matches AsmError::UndefinedLabel(n) && n@
                        == sp->Err_0),
                }
            }),
    {
        match self {
            Operand::Register(b) => Ok(*b),
            Operand::Constant(b) => Ok(*b),
            Operand::Label(name) => match symbol_table.get(name) {
                Some(b) => Ok(b),
                None => Err(AsmError::UndefinedLabel(name.clone())),
            },
        }
    }
}

impl Operation {
    /// The numeric opcode.
    pub fn to_binary(&self) -> (r: Binary)
        ensures
            r == self.0,
    {
        self.0
    }
}

/// The instruction word an item encodes to under a symbol table: `None`
/// for label definitions and directives, the error names the first
/// unresolved label.
pub open spec fn spec_item_code(item: ItemV, m: Map<Seq<char>, Binary>) -> Result<
    Option<Binary>,
    Seq<char>,
> {
    match item {
        ItemV::I { op, rs, rt, im } => match resolve_operand(rs, m) {
            Err(n) => Err(n),
            Ok(a) => match resolve_operand(rt, m) {
                Err(n) => Err(n),
                Ok(b) => match resolve_operand(im, m) {
                    Err(n) => Err(n),
                    Ok(c) => Ok(
                        Some(encode_i(op as u32, a as u32, b as u32, c as u32) as i32),
                    ),
                },
            },
        },
        ItemV::R { op, rs, rt, rd, sh, fc } => match resolve_operand(rs, m) {
            Err(n) => Err(n),
            Ok(a) => match resolve_operand(rt, m) {
                Err(n) => Err(n),
                Ok(b) => match resolve_operand(rd, m) {
                    Err(n) => Err(n),
                    Ok(c) => match resolve_operand(sh, m) {
                        Err(n) => Err(n),
                        Ok(d) => match resolve_operand(fc, m) {
                            Err(n) => Err(n),
                            Ok(f) => Ok(
                                Some(
                                    encode_r(
                                        op as u32,
                                        a as u32,
                                        b as u32,
                                        c as u32,
                                        d as u32,
                                        f as u32,
                                    ) as i32,
                                ),
                            ),
                        },
                    },
                },
            },
        },
        ItemV::J { op, ad } => match resolve_operand(ad, m) {
            Err(n) => Err(n),
            Ok(a) => Ok(Some(encode_j(op as u32, a as u32) as i32)),
        },
        _ => Ok(None),
    }
}

impl Instruction {
    pub fn ii(op: Operation, rs: Operand, rt: Operand, im: Operand) -> (r: Self)
        ensures
            r == (Instruction::I { op, rs, rt, im }),
    {
        Self::I { op, rs, rt, im }
    }

    pub fn ri(op: Operation, rs: Operand, rt: Operand, rd: Operand, sh: Operand, fc: Operand) -> (r:
        Self)
        ensures
            r == (Instruction::R { op, rs, rt, rd, sh, fc }),
    {
        Self::R { op, rs, rt, rd, sh, fc }
    }

    pub fn ji(op: Operation, ad: Operand) -> (r: Self)
        ensures
            r == (Instruction::J { op, ad }),
    {
        Self::J { op, ad }
    }

    /// Encode this item to its instruction word: label definitions and
    /// directives emit nothing, and an unresolved label is fatal.
    pub fn code(&self, symbol_table: &SymbolTable) -> (r: Result<Option<Binary>, AsmError>)
        ensures
            ({
                let sp = spec_item_code(self@, symbol_table@);
                match r {
                    Ok(w) => sp == Ok::<Option<Binary>, Seq<char>>(w),
                    Err(e) => sp is Err && (e matches AsmError::UndefinedLabel(n) && n@
                        == sp->Err_0),
                }
            }),
    {
        match self {
            Instruction::I { op, rs, rt, im } => {
                let a = match rs.to_binary(symbol_table) {
                    Ok(v) => v,
                    Err(e) => {
                        return Err(e);
                    },
                };
                let b = match rt.to_binary(symbol_table) {
                    Ok(v) => v,
                    Err(e) => {
                        return Err(e);
                    },
                };
                let c = match im.to_binary(symbol_table) {
                    Ok(v) => v,
                    Err(e) => {
                        return Err(e);
                    },
                };
                let ins = codec::Instruction::ii(op.to_binary(), a, b, c);
                let w = ins.code();
                proof {
                    codec::lemma_word_bits_inverse(ins.spec_code(), w);
                }
                Ok(Some(w))
            },
            Instruction::R { op, rs, rt, rd, sh, fc } => {
                let a = match rs.to_binary(symbol_table) {
                    Ok(v) => v,
                    Err(e) => {
                        return Err(e);
                    },
                };
                let b = match rt.to_binary(symbol_table) {
                    Ok(v) => v,
                    Err(e) => {
                        return Err(e);
                    },
                };
                let c = match rd.to_binary(symbol_table) {
                    Ok(v) => v,
                    Err(e) => {
                        return Err(e);
                    },
                };
                let d = match sh.to_binary(symbol_table) {
                    Ok(v) => v,
                    Err(e) => {
                        return Err(e);
                    },
                };
                let f = match fc.to_binary(symbol_table) {
                    Ok(v) => v,
                    Err(e) => {
                        return Err(e);
                    },
                };
                let ins = codec::Instruction::ri(op.to_binary(), a, b, c, d, f);
                let w = ins.code();
                proof {
                    codec::lemma_word_bits_inverse(ins.spec_code(), w);
                }
                Ok(Some(w))
            },
            Instruction::J { op, ad } => {
                let a = match ad.to_binary(symbol_table) {
                    Ok(v) => v,
                    Err(e) => {
                        return Err(e);
                    },
                };
                let ins = codec::Instruction::ji(op.to_binary(), a);
                let w = ins.code();
                proof {
                    codec::lemma_word_bits_inverse(ins.spec_code(), w);
                }
                Ok(Some(w))
            },
            Instruction::LabelDef { .. } => Ok(None),
            Instruction::Section(_) => Ok(None),
        }
    }
}

/// The instruction words of a run of items, in source order; the error
/// names the first unresolved label.
pub open spec fn code_words_items(items: Seq<ItemV>, m: Map<Seq<char>, Binary>) -> Result<
    Seq<Binary>,
    Seq<char>,
>
    decreases items.len(),
{
    if items.len() == 0 {
        Ok(Seq::empty())
    } else {
        match spec_item_code(items[0], m) {
            Err(n) => Err(n),
            Ok(opt) => match code_words_items(items.skip(1), m) {
                Err(n) => Err(n),
                Ok(ws) => Ok(
                    (match opt {
                        Some(w) => seq![w],
                        None => Seq::empty(),
                    }) + ws,
                ),
            },
        }
    }
}

/// The instruction words of every group in source order.
pub open spec fn code_words_groups(groups: Seq<Seq<ItemV>>, m: Map<Seq<char>, Binary>) -> Result<
    Seq<Binary>,
    Seq<char>,
>
    decreases groups.len(),
{
    if groups.len() == 0 {
        Ok(Seq::empty())
    } else {
        match code_words_items(groups[0], m) {
            Err(n) => Err(n),
            Ok(ws) => match code_words_groups(groups.skip(1), m) {
                Err(n) => Err(n),
                Ok(ws2) => Ok(ws + ws2),
            },
        }
    }
}

/// Collect the instruction words of every group, executable form.
fn collect_codes(sections: &Vec<Vec<Instruction>>, table: &SymbolTable) -> (r: Result<
    Vec<Binary>,
    AsmError,
>)
    ensures
        ({
            let sp = code_words_groups(groups_view(sections@), table@);
            match r {
                Ok(v) => sp == Ok::<Seq<Binary>, Seq<char>>(v@),
                Err(e) => sp is Err && (e matches AsmError::UndefinedLabel(n) && n@
                    == sp->Err_0),
            }
        }),
{
    let ghost gv = groups_view(sections@);
    let ghost target = code_words_groups(gv, table@);
    let mut out: Vec<Binary> = Vec::new();
    let mut g: usize = 0;
    proof {
        assert(gv.skip(0) =~= gv);
    }
    while g < sections.len()
        invariant
            g <= sections@.len(),
            gv == groups_view(sections@),
            target == code_words_groups(gv, table@),
            target == (match code_words_groups(gv.skip(g as int), table@) {
                Err(n) => Err(n),
                Ok(ws) => Ok(out@ + ws),
            }),
        decreases sections@.len() - g,
    {
        let grp = &sections[g];
        let ghost items = items_view(grp@);
        let mut k: usize = 0;
        proof {
            assert(gv.skip(g as int)[0] == items);
            assert(gv.skip(g as int).skip(1) =~= gv.skip(g + 1));
            assert(items.skip(0) =~= items);
            if code_words_items(items, table@) is Ok && code_words_groups(gv.skip(g + 1), table@)
                is Ok {
                let a = code_words_items(items, table@)->Ok_0;
                let b = code_words_groups(gv.skip(g + 1), table@)->Ok_0;
                assert(out@ + (a + b) =~= (out@ + a) + b);
            }
        }
        while k < grp.len()
            invariant
                k <= grp@.len(),
                items == items_view(grp@),
                gv == groups_view(sections@),
                target == code_words_groups(gv, table@),
                target == (match code_words_items(items.skip(k as int), table@) {
                    Err(n) => Err(n),
                    Ok(ws) => match code_words_groups(gv.skip(g + 1), table@) {
                        Err(n) => Err(n),
                        Ok(ws2) => Ok(out@ + ws + ws2),
                    },
                }),
            decreases grp@.len() - k,
        {
            proof {
                assert(items.skip(k as int)[0] == items[k as int]);
                assert(items.skip(k as int).skip(1) =~= items.skip(k + 1));
            }
            match (&grp[k]).code(table) {
                Ok(Some(c)) => {
                    proof {
                        assert forall|ws: Seq<Binary>, ws2: Seq<Binary>|
                            (out@ + (seq![c] + ws)) + ws2 == (out@.push(c) + ws) + ws2 by {
                            assert((out@ + (seq![c] + ws)) + ws2 =~= (out@.push(c) + ws) + ws2);
                        }
                    }
                    out.push(c);
                },
                Ok(None) => {
                    proof {
                        assert forall|ws: Seq<Binary>|
                            Seq::<Binary>::empty() + ws == ws by {
                            assert(Seq::<Binary>::empty() + ws =~= ws);
                        }
                    }
                },
                Err(e) => {
                    return Err(e);
                },
            }
            k = k + 1;
        }
        proof {
            assert(items.skip(grp@.len() as int) =~= Seq::<ItemV>::empty());
            if code_words_groups(gv.skip(g + 1), table@) is Ok {
                let b = code_words_groups(gv.skip(g + 1), table@)->Ok_0;
                assert((out@ + Seq::<Binary>::empty()) + b =~= out@ + b);
            }
        }
        g = g + 1;
    }
    proof {
        assert(gv.skip(sections@.len() as int) =~= Seq::<Seq<ItemV>>::empty());
        assert(out@ + Seq::<Binary>::empty() =~= out@);
    }
    Ok(out)
}

/// The parsed item stream, opened with a `.text` header when the source
/// did not start with one.
pub open spec fn spec_normalize(items: Seq<ItemV>) -> Seq<ItemV> {
    if items.len() > 0 && items[0] == ItemV::Section(SectionV::Text) {
        items
    } else {
        seq![ItemV::Section(SectionV::Text)] + items
    }
}

/// The whole assembler as one function of the source text: parse,
/// normalize, split, lay out, bind symbols, encode, and serialize the
/// header, text and data words in the given byte order.
pub open spec fn spec_assemble(e: Endian, src: Seq<char>) -> Result<Seq<u8>, AsmErrorV> {
    match spec_parse_from(src, 0) {
        None => Err(AsmErrorV::Parse(spec_parse_err(src))),
        Some(items0) => {
            let groups = spec_split(spec_normalize(items0));
            let d = sat_add(3, count_instrs_groups(groups));
            match spec_symbols_from(groups, 3, d) {
                Err(n) => Err(AsmErrorV::DuplicateLabel(n)),
                Ok(m) => match code_words_groups(groups, m) {
                    Err(n) => Err(AsmErrorV::UndefinedLabel(n)),
                    Ok(ws) => Ok(
                        words_bytes(
                            e,
                            seq![3i32, 3i32, (d as i32)] + ws + data_of_groups(groups),
                        ),
                    ),
                },
            }
        },
    }
}

/// Assemble a whole source text into its image bytes.
pub fn assemble_to_u8_from_string(endian: Endian, source: String) -> (r: Result<Vec<u8>, AsmError>)
    ensures
        ({
            let sp = spec_assemble(endian, source@);
            match r {
                Ok(v) => sp == Ok::<Seq<u8>, AsmErrorV>(v@),
                Err(e) => sp == Err::<Seq<u8>, AsmErrorV>(e@),
            }
        }),
{
    let mut tokens = match parse(source.as_str()) {
        Ok(t) => t,
        Err(m) => {
            return Err(AsmError::Parse(m));
        },
    };
    let ghost parsed = items_view(tokens@);
    let text_first = if tokens.len() == 0 {
        false
    } else {
        match &tokens[0] {
            Instruction::Section(SectionType::Text) => true,
            _ => false,
        }
    };
    if !text_first {
        tokens.insert(0, Instruction::Section(SectionType::Text));
    }
    proof {
        assert(items_view(tokens@) =~= spec_normalize(parsed));
    }
    let sections = split_sections(tokens);
    let file_header = FileHeader::new(&sections);
    proof {
        lemma_count_groups_nonneg(groups_view(sections@));
    }
    let table = match gen_symbol_table(&sections, &file_header) {
        Ok(t) => t,
        Err(e) => {
            return Err(e);
        },
    };
    let mut codes = match collect_codes(&sections, &table) {
        Ok(v) => v,
        Err(e) => {
            return Err(e);
        },
    };
    let mut data = get_data_section(&sections);
    let mut words: Vec<Binary> = Vec::new();
    words.push(3);
    words.push(3);
    words.push(file_header.start_data);
    words.append(&mut codes);
    words.append(&mut data);
    let mut output: Vec<u8> = Vec::new();
    write_data_section(endian, &words, &mut output);
    proof {
        let groups = spec_split(spec_normalize(parsed));
        let d = sat_add(3, count_instrs_groups(groups));
        assert(words@ =~= seq![3i32, 3i32, (d as i32)] + code_words_groups(groups, table@)->Ok_0
            + data_of_groups(groups));
        assert(Seq::<u8>::empty() + words_bytes(endian, words@) =~= words_bytes(endian, words@));
    }
    Ok(output)
}

/// Serialization of `n` words takes `4 n` bytes.
proof fn lemma_words_bytes_len(e: Endian, ws: Seq<Binary>)
    ensures
        words_bytes(e, ws).len() == 4 * ws.len(),
    decreases ws.len(),
{
    if ws.len() > 0 {
        lemma_words_bytes_len(e, ws.skip(1));
        assert(bytes_of_word(e, ws[0]).len() == 4);
    }
}

/// Reading word `i` back from a serialized word sequence yields the word.
proof fn lemma_words_bytes_word_at(e: Endian, ws: Seq<Binary>, i: int)
    requires
        0 <= i < ws.len(),
    ensures
        codec::spec_word_at(e, words_bytes(e, ws), i) == ws[i] as u32,
    decreases i,
{
    lemma_words_bytes_len(e, ws.skip(1));
    assert(bytes_of_word(e, ws[0]).len() == 4);
    if i == 0 {
        codec::lemma_word_bytes_roundtrip(ws[0], e);
        assert(words_bytes(e, ws)[0] == bytes_of_word(e, ws[0])[0]);
        assert(words_bytes(e, ws)[1] == bytes_of_word(e, ws[0])[1]);
        assert(words_bytes(e, ws)[2] == bytes_of_word(e, ws[0])[2]);
        assert(words_bytes(e, ws)[3] == bytes_of_word(e, ws[0])[3]);
    } else {
        lemma_words_bytes_word_at(e, ws.skip(1), i - 1);
        assert(words_bytes(e, ws)[4 * i + 0] == words_bytes(e, ws.skip(1))[4 * (i - 1) + 0]);
        assert(words_bytes(e, ws)[4 * i + 1] == words_bytes(e, ws.skip(1))[4 * (i - 1) + 1]);
        assert(words_bytes(e, ws)[4 * i + 2] == words_bytes(e, ws.skip(1))[4 * (i - 1) + 2]);
        assert(words_bytes(e, ws)[4 * i + 3] == words_bytes(e, ws.skip(1))[4 * (i - 1) + 3]);
        assert(ws.skip(1)[i - 1] == ws[i]);
    }
}

/// Instruction counts add up over concatenation.
proof fn lemma_count_append(a: Seq<ItemV>, b: Seq<ItemV>)
    ensures
        count_instrs(a + b) == count_instrs(a) + count_instrs(b),
    decreases a.len(),
{
    if a.len() == 0 {
        assert(a + b =~= b);
    } else {
        lemma_count_append(a.skip(1), b);
        assert((a + b).skip(1) =~= a.skip(1) + b);
        assert((a + b)[0] == a[0]);
    }
}

/// Splitting into groups keeps the instruction count.
proof fn lemma_split_count(items: Seq<ItemV>)
    ensures
        count_instrs_groups(spec_split(items)) == count_instrs(items),
    decreases items.len(),
{
    if items.len() > 0 {
        let e = next_header(items, 1);
        if 1 <= e <= items.len() {
            lemma_split_count(items.skip(e));
            lemma_count_append(items.subrange(0, e), items.skip(e));
            assert(items.subrange(0, e) + items.skip(e) =~= items);
            assert((seq![items.subrange(0, e)] + spec_split(items.skip(e)))[0] == items.subrange(
                0,
                e,
            ));
            assert((seq![items.subrange(0, e)] + spec_split(items.skip(e))).skip(1) =~= spec_split(
                items.skip(e),
            ));
            assert(spec_split(items) == seq![items.subrange(0, e)] + spec_split(items.skip(e)));
            assert(count_instrs_groups(spec_split(items)) == count_instrs(
                spec_split(items)[0],
            ) + count_instrs_groups(spec_split(items).skip(1)));
            assert(spec_split(items)[0] == items.subrange(0, e));
            assert(count_instrs(items) == count_instrs(items.subrange(0, e)) + count_instrs(
                items.skip(e),
            ));
        } else {
            assert(spec_split(items) == seq![items]);
            assert(seq![items][0] == items);
            assert(seq![items].skip(1) =~= Seq::<Seq<ItemV>>::empty());
            assert(count_instrs_groups(spec_split(items)) == count_instrs(items)
                + count_instrs_groups(seq![items].skip(1)));
        }
    }
}

/// Header constancy: in every successfully assembled image, word 0 and
/// word 1 both hold 3, and word 2 holds 3 plus the number of instruction
/// words among the parsed items (saturating at the top of the word range).
pub proof fn lemma_header_constancy(e: Endian, src: Seq<char>, bytes: Seq<u8>)
    requires
        spec_assemble(e, src) == Ok::<Seq<u8>, AsmErrorV>(bytes),
    ensures
        bytes.len() >= 12,
        codec::spec_word_at(e, bytes, 0) == 3,
        codec::spec_word_at(e, bytes, 1) == 3,
        codec::spec_word_at(e, bytes, 2) == sat_add(
            3,
            count_instrs(spec_normalize(spec_parse_from(src, 0)->Some_0)),
        ) as i32 as u32,
{
    let items = spec_normalize(spec_parse_from(src, 0)->Some_0);
    let groups = spec_split(items);
    let d = sat_add(3, count_instrs_groups(groups));
    let m = spec_symbols_from(groups, 3, d)->Ok_0;
    let ws = code_words_groups(groups, m)->Ok_0;
    let all = seq![3i32, 3i32, (d as i32)] + ws + data_of_groups(groups);
    lemma_split_count(items);
    lemma_words_bytes_len(e, all);
    lemma_words_bytes_word_at(e, all, 0);
    lemma_words_bytes_word_at(e, all, 1);
    lemma_words_bytes_word_at(e, all, 2);
    assert(all[0] == 3i32 && all[1] == 3i32 && all[2] == (d as i32));
    assert((3i32 as u32) == 3) by (bit_vector);
}

} // verus!
