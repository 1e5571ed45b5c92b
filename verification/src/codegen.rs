//! The decisions of the code generators: how the block types are named from
//! the registry of block properties, and how a packet is looked up in the
//! registry of packets.

use crate::text::{concat_str, same_text};
use indexmap::IndexMap;
use vstd::multiset::Multiset;
use vstd::prelude::*;
use vstd::string::StrSliceExecFns;

verus! {

/// A block state that can tell its number in the registry of block states.
pub trait BlockType {
    fn block_state_id(&self) -> u16;
}

/// What `heck`'s upper camel case conversion makes of a string.
pub uninterp spec fn pascal_case_of(s: Seq<char>) -> Seq<char>;

/// Calls `heck::ToPascalCase::to_pascal_case`; its result depends on the
/// string alone and is named `pascal_case_of`.
#[verifier::external_body]
fn pascal_case(s: &str) -> (r: String)
    ensures
        r@ == pascal_case_of(s@),
{
    heck::ToPascalCase::to_pascal_case(s)
}

/// The prefix of the registry names of blocks.
pub open spec fn block_prefix() -> Seq<char> {
    seq!['b', 'l', 'o', 'c', 'k', '.', 'm', 'i', 'n', 'e', 'c', 'r', 'a', 'f', 't']
}

/// The id of a block from its registry name: the name without its leading
/// `block.minecraft`, or `None` where it does not start so.
pub fn block_id<'a>(block: &'a str) -> (r: Option<&'a str>)
    ensures
        r is Some <==> block_prefix().is_prefix_of(block@),
        r matches Some(id) ==> id@ == block@.skip(block_prefix().len() as int),
{
    let prefix = "block.minecraft";
    proof {
        reveal_strlit("block.minecraft");
        assert(prefix@ == block_prefix());
    }
    let n = block.unicode_len();
    let p = prefix.unicode_len();
    if n < p {
        return None;
    }
    let mut i: usize = 0;
    while i < p
        invariant
            p == block_prefix().len(),
            prefix@ == block_prefix(),
            n == block@.len(),
            p <= n,
            i <= p,
            forall|j: int| 0 <= j < i ==> block@[j] == block_prefix()[j],
        decreases p - i,
    {
        if block.get_char(i) != prefix.get_char(i) {
            return None;
        }
        i = i + 1;
    }
    proof {
        assert(block_prefix() =~= block@.take(p as int));
    }
    let id = block.substring_char(p, n);
    proof {
        assert(id@ =~= block@.skip(p as int));
    }
    Some(id)
}

/// Whether `c` is one of the ten ASCII digits.
pub open spec fn is_digit(c: char) -> bool {
    '0' <= c <= '9'
}

/// The name of the type of a block: the upper camel case form of its id, or
/// `None` where its registry name does not start with `block.minecraft`.
pub fn block_type_name(block: &str) -> (r: Option<String>)
    ensures
        r is Some <==> block_prefix().is_prefix_of(block@),
        r matches Some(name) ==> name@ == pascal_case_of(block@.skip(block_prefix().len() as int)),
{
    match block_id(block) {
        Some(id) => Some(pascal_case(id)),
        None => None,
    }
}

/// The name of a state of a block property: its upper camel case form, after
/// `Num` where the state starts with a digit.
pub fn state_variant_name(state: &str) -> (r: String)
    requires
        state@.len() > 0,
    ensures
        r@ == (if is_digit(state@[0]) {
            seq!['N', 'u', 'm']
        } else {
            Seq::<char>::empty()
        }) + pascal_case_of(state@),
{
    let first = state.get_char(0);
    let prefix = if '0' <= first && first <= '9' {
        proof {
            reveal_strlit("Num");
        }
        "Num"
    } else {
        proof {
            reveal_strlit("");
        }
        ""
    };
    let name = pascal_case(state);
    let r = concat_str(prefix.to_owned(), name.as_str());
    proof {
        assert(r@ =~= (if is_digit(state@[0]) {
            seq!['N', 'u', 'm']
        } else {
            Seq::<char>::empty()
        }) + pascal_case_of(state@));
    }
    r
}

/// The name of the enum of a property's states.
pub fn property_enum_type_name(assigned: &str) -> (r: String)
    ensures
        r@ == pascal_case_of(assigned@),
{
    pascal_case(assigned)
}

/// The name of the field that holds a property: `ty` for `type`, which is a
/// keyword, else the property's own name.
pub fn property_field_name(property: &str) -> (r: String)
    ensures
        property@ == seq!['t', 'y', 'p', 'e'] ==> r@ == seq!['t', 'y'],
        property@ != seq!['t', 'y', 'p', 'e'] ==> r@ == property@,
{
    proof {
        reveal_strlit("type");
        reveal_strlit("ty");
        assert("type"@ =~= seq!['t', 'y', 'p', 'e']);
        assert("ty"@ =~= seq!['t', 'y']);
    }
    if same_text(property, "type") {
        "ty".to_owned()
    } else {
        property.to_owned()
    }
}

/// Whether two lists of strings hold the same strings in the same order.
pub fn same_strings(a: &Vec<String>, b: &Vec<String>) -> (r: bool)
    ensures
        r == (a.deep_view() == b.deep_view()),
{
    if a.len() != b.len() {
        proof {
            assert(a.deep_view().len() != b.deep_view().len());
        }
        return false;
    }
    let mut i: usize = 0;
    while i < a.len()
        invariant
            a.len() == b.len(),
            i <= a.len(),
            forall|j: int| 0 <= j < i ==> a@[j]@ == b@[j]@,
        decreases a.len() - i,
    {
        if !same_text(a[i].as_str(), b[i].as_str()) {
            proof {
                assert(a.deep_view()[i as int] != b.deep_view()[i as int]);
            }
            return false;
        }
        i = i + 1;
    }
    proof {
        assert(a.deep_view() =~= b.deep_view());
    }
    true
}

/// A copy of a list of strings.
fn copy_strings(v: &Vec<String>) -> (r: Vec<String>)
    ensures
        r.deep_view() == v.deep_view(),
{
    let mut r: Vec<String> = Vec::new();
    let mut i: usize = 0;
    while i < v.len()
        invariant
            i <= v.len(),
            r.len() == i,
            forall|j: int| 0 <= j < i ==> r@[j]@ == v@[j]@,
        decreases v.len() - i,
    {
        r.push(v[i].clone());
        i = i + 1;
    }
    proof {
        assert(r.deep_view() =~= v.deep_view());
    }
    r
}

/// The entries of one property name: each list of states seen under it and
/// the name given to the enum of those states.
pub type PropertyEntries = Vec<(Vec<String>, String)>;

/// The index of the first entry whose states are `states`.
pub open spec fn first_entry_with(
    entries: Seq<(Seq<Seq<char>>, Seq<char>)>,
    states: Seq<Seq<char>>,
    i: int,
) -> bool {
    &&& 0 <= i < entries.len()
    &&& entries[i].0 == states
    &&& forall|j: int| 0 <= j < i ==> entries[j].0 != states
}

/// The name of the enum for a property with `states` on the block
/// `variant_name`. States already seen under this property reuse the name
/// given to them then; new states are recorded, under the property's own
/// name the first time and under the property's name followed by the
/// block's afterwards.
pub fn assign_property_enum(
    entries: &mut PropertyEntries,
    property: &str,
    states: &Vec<String>,
    variant_name: &str,
) -> (r: String)
    ensures
        (exists|i: int| first_entry_with(old(entries).deep_view(), states.deep_view(), i)) ==> {
            &&& final(entries).deep_view() == old(entries).deep_view()
            &&& exists|i: int|
                first_entry_with(old(entries).deep_view(), states.deep_view(), i) && r@ == old(
                    entries,
                ).deep_view()[i].1
        },
        (forall|i: int|
            0 <= i < old(entries).len() ==> old(entries).deep_view()[i].0 != states.deep_view())
            ==> {
            &&& r@ == (if old(entries).len() == 0 {
                property@
            } else {
                property@ + variant_name@
            })
            &&& final(entries).deep_view() == old(entries).deep_view().push(
                (states.deep_view(), r@),
            )
        },
{
    let mut i: usize = 0;
    while i < entries.len()
        invariant
            i <= entries.len(),
            forall|j: int| 0 <= j < i ==> entries.deep_view()[j].0 != states.deep_view(),
        decreases entries.len() - i,
    {
        if same_strings(&entries[i].0, states) {
            let name = entries[i].1.clone();
            proof {
                assert(first_entry_with(entries.deep_view(), states.deep_view(), i as int));
            }
            return name;
        }
        proof {
            assert(entries.deep_view()[i as int].0 == entries@[i as int].0.deep_view());
        }
        i = i + 1;
    }
    let candidate = if entries.len() == 0 {
        property.to_owned()
    } else {
        concat_str(property.to_owned(), variant_name)
    };
    let seen = copy_strings(states);
    entries.push((seen, candidate.clone()));
    proof {
        assert(entries.deep_view() =~= old(entries).deep_view().push(
            (states.deep_view(), candidate@),
        ));
    }
    candidate
}

/// The key under which the registry of packets lists a direction: its name
/// in lower case, or `None` for a word that names no direction.
pub fn direction_key(dir: &str) -> (r: Option<String>)
    ensures
        dir@ == "Clientbound"@ ==> (r matches Some(k) && k@ == "clientbound"@),
        dir@ == "Serverbound"@ ==> (r matches Some(k) && k@ == "serverbound"@),
        dir@ != "Clientbound"@ && dir@ != "Serverbound"@ ==> r is None,
{
    proof {
        reveal_strlit("Clientbound");
        reveal_strlit("Serverbound");
        assert("Clientbound"@[0] != "Serverbound"@[0]);
    }
    if same_text(dir, "Clientbound") {
        Some("clientbound".to_owned())
    } else if same_text(dir, "Serverbound") {
        Some("serverbound".to_owned())
    } else {
        None
    }
}

/// The registry key of a packet: its name in the `minecraft` namespace.
pub fn packet_key(name: &str) -> (r: String)
    ensures
        r@ == "minecraft:"@ + name@,
{
    concat_str("minecraft:".to_owned(), name)
}

/// The protocol id that the registry gives for a packet, which must be an
/// integer that fits in an `i32`.
pub fn protocol_id(value: Option<i64>) -> (r: Option<i32>)
    ensures
        r == (match value {
            Some(v) => if i32::MIN <= v <= i32::MAX {
                Some(v as i32)
            } else {
                None
            },
            None => None,
        }),
{
    match value {
        Some(v) => if i32::MIN as i64 <= v && v <= i32::MAX as i64 {
            Some(v as i32)
        } else {
            None
        },
        None => None,
    }
}

// ----- the names of packet constants -----

/// An entry of the registry of packets: a name, with its packet's direction,
/// state and id.
pub type PacketEntryView = (Seq<char>, (Seq<char>, Seq<char>, i32));

/// The registry of packets by name, in the order in which they were recorded.
pub type PacketTable = IndexMap<String, (String, String, i32)>;

#[verifier::external_type_specification]
#[verifier::external_body]
#[verifier::reject_recursive_types(K)]
#[verifier::reject_recursive_types(V)]
#[verifier::reject_recursive_types(S)]
pub struct ExIndexMap<K, V, S>(IndexMap<K, V, S>);

/// The entries of a packet table, in their order: each name with its
/// packet's direction, state and id.
pub uninterp spec fn table_entries(t: PacketTable) -> Seq<PacketEntryView>;

/// Calls `IndexMap::new`: a table with no entries.
#[verifier::external_body]
fn table_new() -> (r: PacketTable)
    ensures
        table_entries(r) == Seq::<PacketEntryView>::empty(),
{
    IndexMap::new()
}

/// Calls `Clone::clone` on the table: the same entries, in the same order.
#[verifier::external_body]
fn table_clone(t: &PacketTable) -> (r: PacketTable)
    ensures
        table_entries(r) == table_entries(*t),
{
    t.clone()
}

/// An empty registry of packets.
pub fn new_packet_table() -> (r: PacketTable)
    ensures
        table_entries(r) == Seq::<PacketEntryView>::empty(),
        names_unique(table_entries(r)),
{
    table_new()
}

/// Calls `IndexMap::shift_remove`: the entry with this name, if there is
/// one, leaves the table, and those after it move up, keeping their order.
#[verifier::external_body]
fn table_shift_remove(t: &mut PacketTable, name: &str) -> (r: Option<(String, String, i32)>)
    requires
        names_unique(table_entries(*old(t))),
    ensures
        names_unique(table_entries(*final(t))),
        r is None <==> !has_name(table_entries(*old(t)), name@),
        r is None ==> table_entries(*final(t)) == table_entries(*old(t)),
        r matches Some(v) ==> {
            &&& v.deep_view() == table_entries(*old(t))[name_at(table_entries(*old(t)), name@)].1
            &&& table_entries(*final(t)) == table_entries(*old(t)).remove(
                name_at(table_entries(*old(t)), name@),
            )
        },
{
    t.shift_remove(name)
}

/// Calls `IndexMap::insert` with a name that no entry holds: the entry
/// goes last.
#[verifier::external_body]
fn table_insert(t: &mut PacketTable, name: String, packet: (String, String, i32))
    requires
        names_unique(table_entries(*old(t))),
        !has_name(table_entries(*old(t)), name@),
    ensures
        names_unique(table_entries(*final(t))),
        table_entries(*final(t)) == table_entries(*old(t)).push((name@, packet.deep_view())),
{
    let _ = t.insert(name, packet);
}

/// Whether some entry has this name.
pub open spec fn has_name(s: Seq<PacketEntryView>, name: Seq<char>) -> bool {
    exists|i: int| 0 <= i < s.len() && #[trigger] s[i].0 == name
}

/// The position of the entry with this name.
pub open spec fn name_at(s: Seq<PacketEntryView>, name: Seq<char>) -> int {
    choose|i: int| 0 <= i < s.len() && #[trigger] s[i].0 == name
}

/// No two entries have the same name.
pub open spec fn names_unique(s: Seq<PacketEntryView>) -> bool {
    forall|i: int, j: int| 0 <= i < j < s.len() ==> #[trigger] s[i].0 != #[trigger] s[j].0
}

/// What recording a packet under `name` makes of the entries, with at most
/// `fuel` steps of renaming. A free name is taken, at the end. A taken name
/// is given up by its entry, and both packets are recorded again: after the
/// name, an underscore and their states when they go the same way, else
/// after their directions and an underscore; the packet that held the name
/// goes first. `None` if the renaming does not end within `fuel` steps.
pub open spec fn record_spec(
    s: Seq<PacketEntryView>,
    name: Seq<char>,
    dir: Seq<char>,
    state: Seq<char>,
    id: i32,
    fuel: nat,
) -> Option<Seq<PacketEntryView>>
    decreases fuel,
{
    if fuel == 0 {
        None
    } else if !has_name(s, name) {
        Some(s.push((name, (dir, state, id))))
    } else {
        let i = name_at(s, name);
        let other = s[i].1;
        let rest = s.remove(i);
        let first = if other.0 == dir {
            name + seq!['_'] + other.1
        } else {
            other.0 + seq!['_'] + name
        };
        let second = if other.0 == dir {
            name + seq!['_'] + state
        } else {
            dir + seq!['_'] + name
        };
        match record_spec(rest, first, other.0, other.1, other.2, (fuel - 1) as nat) {
            None => None,
            Some(s2) => record_spec(s2, second, dir, state, id, (fuel - 1) as nat),
        }
    }
}

/// The packets that the entries hold, whatever their names.
pub open spec fn packets_of(s: Seq<PacketEntryView>) -> Multiset<(Seq<char>, Seq<char>, i32)> {
    s.map_values(|e: PacketEntryView| e.1).to_multiset()
}

proof fn lemma_packets_push(s: Seq<PacketEntryView>, e: PacketEntryView)
    ensures
        packets_of(s.push(e)) == packets_of(s).insert(e.1),
{
    assert(s.push(e).map_values(|e: PacketEntryView| e.1) =~= s.map_values(
        |e: PacketEntryView| e.1,
    ).push(e.1));
    vstd::seq_lib::to_multiset_build(s.map_values(|e: PacketEntryView| e.1), e.1);
}

proof fn lemma_packets_remove(s: Seq<PacketEntryView>, i: int)
    requires
        0 <= i < s.len(),
    ensures
        packets_of(s.remove(i)) == packets_of(s).remove(s[i].1),
        packets_of(s).count(s[i].1) > 0,
{
    let m = s.map_values(|e: PacketEntryView| e.1);
    assert(s.remove(i).map_values(|e: PacketEntryView| e.1) =~= m.remove(i));
    vstd::seq_lib::to_multiset_remove(m, i);
    vstd::seq_lib::to_multiset_contains(m, s[i].1);
    assert(m[i] == s[i].1);
    assert(m.contains(s[i].1));
}

/// Recording a packet keeps the names apart, and keeps every packet that was
/// there: what is recorded is the packets from before and the new one.
pub proof fn lemma_record_keeps_packets(
    s: Seq<PacketEntryView>,
    name: Seq<char>,
    dir: Seq<char>,
    state: Seq<char>,
    id: i32,
    fuel: nat,
)
    requires
        names_unique(s),
        record_spec(s, name, dir, state, id, fuel) is Some,
    ensures
        names_unique(record_spec(s, name, dir, state, id, fuel)->Some_0),
        packets_of(record_spec(s, name, dir, state, id, fuel)->Some_0) == packets_of(s).insert(
            (dir, state, id),
        ),
    decreases fuel,
{
    if !has_name(s, name) {
        let t = s.push((name, (dir, state, id)));
        assert forall|i: int, j: int| 0 <= i < j < t.len() implies #[trigger] t[i].0
            != #[trigger] t[j].0 by {
            if j == s.len() {
                assert(s[i].0 == t[i].0);
            } else {
                assert(s[i].0 != s[j].0);
            }
        }
        lemma_packets_push(s, (name, (dir, state, id)));
    } else {
        let i = name_at(s, name);
        let other = s[i].1;
        let rest = s.remove(i);
        let first = if other.0 == dir {
            name + seq!['_'] + other.1
        } else {
            other.0 + seq!['_'] + name
        };
        let second = if other.0 == dir {
            name + seq!['_'] + state
        } else {
            dir + seq!['_'] + name
        };
        assert forall|a: int, b: int| 0 <= a < b < rest.len() implies #[trigger] rest[a].0
            != #[trigger] rest[b].0 by {
            let a2 = if a < i { a } else { a + 1 };
            let b2 = if b < i { b } else { b + 1 };
            assert(rest[a] == s[a2]);
            assert(rest[b] == s[b2]);
        }
        lemma_packets_remove(s, i);
        lemma_record_keeps_packets(rest, first, other.0, other.1, other.2, (fuel - 1) as nat);
        let s2 = record_spec(rest, first, other.0, other.1, other.2, (fuel - 1) as nat)->Some_0;
        lemma_record_keeps_packets(s2, second, dir, state, id, (fuel - 1) as nat);
        assert(packets_of(s).remove(other).insert(other) =~= packets_of(s));
    }
}

/// The budget of renaming steps only bounds the work: once recording ends
/// within some budget, every larger budget gives the same entries.
pub proof fn lemma_record_budget_independent(
    s: Seq<PacketEntryView>,
    name: Seq<char>,
    dir: Seq<char>,
    state: Seq<char>,
    id: i32,
    fuel: nat,
    more: nat,
)
    requires
        record_spec(s, name, dir, state, id, fuel) is Some,
        fuel <= more,
    ensures
        record_spec(s, name, dir, state, id, more) == record_spec(s, name, dir, state, id, fuel),
    decreases fuel,
{
    if has_name(s, name) {
        let i = name_at(s, name);
        let other = s[i].1;
        let rest = s.remove(i);
        let first = if other.0 == dir {
            name + seq!['_'] + other.1
        } else {
            other.0 + seq!['_'] + name
        };
        let second = if other.0 == dir {
            name + seq!['_'] + state
        } else {
            dir + seq!['_'] + name
        };
        lemma_record_budget_independent(
            rest,
            first,
            other.0,
            other.1,
            other.2,
            (fuel - 1) as nat,
            (more - 1) as nat,
        );
        let s2 = record_spec(rest, first, other.0, other.1, other.2, (fuel - 1) as nat)->Some_0;
        lemma_record_budget_independent(
            s2,
            second,
            dir,
            state,
            id,
            (fuel - 1) as nat,
            (more - 1) as nat,
        );
    }
}

proof fn lemma_joined_apart(a: Seq<char>, b: Seq<char>, name: Seq<char>)
    requires
        a + seq!['_'] + name == b + seq!['_'] + name,
    ensures
        a == b,
{
    let x = a + seq!['_'] + name;
    let y = b + seq!['_'] + name;
    assert(x == y);
    assert(x.len() == a.len() + 1 + name.len());
    assert(y.len() == b.len() + 1 + name.len());
    assert(a.len() == b.len());
    assert(x.subrange(0, a.len() as int) =~= a);
    assert(y.subrange(0, b.len() as int) =~= b);
}

proof fn lemma_joined_apart_right(name: Seq<char>, a: Seq<char>, b: Seq<char>)
    requires
        name + seq!['_'] + a == name + seq!['_'] + b,
    ensures
        a == b,
{
    let x = name + seq!['_'] + a;
    let y = name + seq!['_'] + b;
    let k = name.len() + 1;
    assert(x.subrange(k as int, x.len() as int) =~= a);
    assert(y.subrange(k as int, y.len() as int) =~= b);
}

/// The packet at position `i` of unique names, and `name` its name.
proof fn lemma_name_at_is(s: Seq<PacketEntryView>, name: Seq<char>, i: int)
    requires
        names_unique(s),
        0 <= i < s.len(),
        s[i].0 == name,
    ensures
        has_name(s, name),
        name_at(s, name) == i,
{
    assert(has_name(s, name));
    let j = name_at(s, name);
    assert(0 <= j < s.len() && s[j].0 == name);
    if j != i {
        if j < i {
            assert(s[j].0 != s[i].0);
        } else {
            assert(s[i].0 != s[j].0);
        }
    }
}

/// A clash between packets that go different ways is settled by their
/// directions, whatever their states: the packet that held the name is
/// recorded again after its direction and an underscore, then the new one
/// after its own direction, both last, when those names are free.
pub proof fn lemma_clash_across_directions(
    s: Seq<PacketEntryView>,
    i: int,
    name: Seq<char>,
    dir: Seq<char>,
    state: Seq<char>,
    id: i32,
    fuel: nat,
)
    requires
        names_unique(s),
        0 <= i < s.len(),
        s[i].0 == name,
        s[i].1.0 != dir,
        forall|j: int| 0 <= j < s.len() ==> #[trigger] s[j].0 != s[i].1.0 + seq!['_'] + name,
        forall|j: int| 0 <= j < s.len() ==> #[trigger] s[j].0 != dir + seq!['_'] + name,
        fuel >= 2,
    ensures
        record_spec(s, name, dir, state, id, fuel) == Some(
            s.remove(i).push((s[i].1.0 + seq!['_'] + name, s[i].1)).push(
                (dir + seq!['_'] + name, (dir, state, id)),
            ),
        ),
{
    lemma_name_at_is(s, name, i);
    let other = s[i].1;
    let rest = s.remove(i);
    let first = other.0 + seq!['_'] + name;
    let second = dir + seq!['_'] + name;
    assert forall|j: int| 0 <= j < rest.len() implies #[trigger] rest[j].0 != first
        && rest[j].0 != second by {
        let j2 = if j < i { j } else { j + 1 };
        assert(rest[j] == s[j2]);
    }
    assert(!has_name(rest, first));
    let s2 = rest.push((first, other));
    assert(record_spec(rest, first, other.0, other.1, other.2, (fuel - 1) as nat) == Some(s2));
    if first == second {
        lemma_joined_apart(other.0, dir, name);
    }
    assert forall|j: int| 0 <= j < s2.len() implies #[trigger] s2[j].0 != second by {
        if j < rest.len() {
            assert(s2[j] == rest[j]);
        }
    }
    assert(!has_name(s2, second));
    assert(record_spec(s2, second, dir, state, id, (fuel - 1) as nat) == Some(
        s2.push((second, (dir, state, id))),
    ));
}

/// A clash between packets that go the same way, in different states, is
/// settled by their states: the packet that held the name is recorded again
/// after the name, an underscore and its state, then the new one after the
/// name, an underscore and its own state, both last, when those names are
/// free.
pub proof fn lemma_clash_within_direction(
    s: Seq<PacketEntryView>,
    i: int,
    name: Seq<char>,
    dir: Seq<char>,
    state: Seq<char>,
    id: i32,
    fuel: nat,
)
    requires
        names_unique(s),
        0 <= i < s.len(),
        s[i].0 == name,
        s[i].1.0 == dir,
        s[i].1.1 != state,
        forall|j: int| 0 <= j < s.len() ==> #[trigger] s[j].0 != name + seq!['_'] + s[i].1.1,
        forall|j: int| 0 <= j < s.len() ==> #[trigger] s[j].0 != name + seq!['_'] + state,
        fuel >= 2,
    ensures
        record_spec(s, name, dir, state, id, fuel) == Some(
            s.remove(i).push((name + seq!['_'] + s[i].1.1, s[i].1)).push(
                (name + seq!['_'] + state, (dir, state, id)),
            ),
        ),
{
    lemma_name_at_is(s, name, i);
    let other = s[i].1;
    let rest = s.remove(i);
    let first = name + seq!['_'] + other.1;
    let second = name + seq!['_'] + state;
    assert forall|j: int| 0 <= j < rest.len() implies #[trigger] rest[j].0 != first
        && rest[j].0 != second by {
        let j2 = if j < i { j } else { j + 1 };
        assert(rest[j] == s[j2]);
    }
    assert(!has_name(rest, first));
    let s2 = rest.push((first, other));
    assert(record_spec(rest, first, other.0, other.1, other.2, (fuel - 1) as nat) == Some(s2));
    if first == second {
        lemma_joined_apart_right(name, other.1, state);
    }
    assert forall|j: int| 0 <= j < s2.len() implies #[trigger] s2[j].0 != second by {
        if j < rest.len() {
            assert(s2[j] == rest[j]);
        }
    }
    assert(!has_name(s2, second));
    assert(record_spec(s2, second, dir, state, id, (fuel - 1) as nat) == Some(
        s2.push((second, (dir, state, id))),
    ));
}

/// `name` followed `k` times by an underscore and `state`.
pub open spec fn suffixed(name: Seq<char>, state: Seq<char>, k: nat) -> Seq<char>
    decreases k,
{
    if k == 0 {
        name
    } else {
        suffixed(name, state, (k - 1) as nat) + seq!['_'] + state
    }
}

proof fn lemma_suffixed_shift(name: Seq<char>, state: Seq<char>, k: nat)
    ensures
        suffixed(name + seq!['_'] + state, state, k) == suffixed(name, state, k + 1),
        suffixed(name, state, k).len() >= name.len() + k,
    decreases k,
{
    let n2 = name + seq!['_'] + state;
    if k > 0 {
        lemma_suffixed_shift(name, state, (k - 1) as nat);
        assert(suffixed(n2, state, k) == suffixed(n2, state, (k - 1) as nat) + seq!['_'] + state);
        assert(suffixed(name, state, k + 1) == suffixed(name, state, k) + seq!['_'] + state);
    } else {
        assert(suffixed(name, state, 1) == suffixed(name, state, 0) + seq!['_'] + state);
        assert(suffixed(n2, state, 0) == n2);
    }
}

/// Recording a packet under a name that an entry of the same direction and
/// state already holds never ends, whatever the budget, unless some entry
/// already holds one of the names it is renamed to (the name followed by one
/// or more underscores and the state): both packets are renamed alike, again
/// and again. Such packets need not be alike: their ids may differ.
pub proof fn lemma_same_kind_never_recorded(
    s: Seq<PacketEntryView>,
    name: Seq<char>,
    dir: Seq<char>,
    state: Seq<char>,
    id: i32,
    fuel: nat,
)
    requires
        names_unique(s),
        exists|i: int| 0 <= i < s.len() && #[trigger] s[i].0 == name && s[i].1.0 == dir && s[i].1.1 == state,
        forall|i: int, k: nat| 0 <= i < s.len() && k >= 1 ==> #[trigger] s[i].0 != #[trigger] suffixed(name, state, k),
    ensures
        record_spec(s, name, dir, state, id, fuel) is None,
    decreases fuel,
{
    if fuel > 0 {
        let w = choose|i: int| 0 <= i < s.len() && #[trigger] s[i].0 == name && s[i].1.0 == dir && s[i].1.1 == state;
        assert(has_name(s, name));
        let i = name_at(s, name);
        assert(0 <= i < s.len() && s[i].0 == name);
        if i != w {
            if i < w {
                assert(s[i].0 != s[w].0);
            } else {
                assert(s[w].0 != s[i].0);
            }
        }
        assert(i == w);
        let other = s[i].1;
        assert(other.0 == dir && other.1 == state);
        let rest = s.remove(i);
        let first = name + seq!['_'] + other.1;
        assert(suffixed(name, state, 1) == suffixed(name, state, 0) + seq!['_'] + state);
        assert(suffixed(name, state, 1) =~= first);
        if fuel > 1 {
            assert forall|j: int| 0 <= j < rest.len() implies #[trigger] rest[j].0 != first by {
                let j2 = if j < i { j } else { j + 1 };
                assert(rest[j] == s[j2]);
                assert(s[j2].0 != suffixed(name, state, 1));
            }
            assert(!has_name(rest, first));
            let s2 = rest.push((first, (dir, state, other.2)));
            assert(record_spec(rest, first, other.0, other.1, other.2, (fuel - 1) as nat) == Some(s2));
            assert forall|a: int, b: int| 0 <= a < b < s2.len() implies #[trigger] s2[a].0
                != #[trigger] s2[b].0 by {
                if b == rest.len() {
                    assert(rest[a].0 != first);
                } else {
                    let a2 = if a < i { a } else { a + 1 };
                    let b2 = if b < i { b } else { b + 1 };
                    assert(rest[a] == s[a2]);
                    assert(rest[b] == s[b2]);
                }
            }
            assert(s2[rest.len() as int].0 == first);
            assert forall|j: int, k: nat| 0 <= j < s2.len() && k >= 1 implies #[trigger] s2[j].0
                != #[trigger] suffixed(first, state, k) by {
                lemma_suffixed_shift(name, state, k);
                lemma_suffixed_shift(first, state, k);
                if j == rest.len() {
                    assert(suffixed(first, state, k).len() >= first.len() + k);
                } else {
                    let j2 = if j < i { j } else { j + 1 };
                    assert(rest[j] == s[j2]);
                    assert(s[j2].0 != suffixed(name, state, k + 1));
                }
            }
            lemma_same_kind_never_recorded(s2, first, dir, state, id, (fuel - 1) as nat);
        }
    }
}

/// A packet whose name no entry holds is recorded under that name, after the
/// others, with any budget of at least one step.
pub proof fn lemma_record_free_name(
    s: Seq<PacketEntryView>,
    name: Seq<char>,
    dir: Seq<char>,
    state: Seq<char>,
    id: i32,
    fuel: nat,
)
    requires
        forall|i: int| 0 <= i < s.len() ==> #[trigger] s[i].0 != name,
        fuel >= 1,
    ensures
        record_spec(s, name, dir, state, id, fuel) == Some(s.push((name, (dir, state, id)))),
{
}

/// Records a packet under `name`, renaming packets whose names clash, in at
/// most `fuel` steps; `false` if the renaming did not end within them, and
/// then the table is as it was.
pub fn record_packet_name(
    entries: &mut PacketTable,
    name: String,
    dir: &str,
    state: &str,
    id: i32,
    fuel: usize,
) -> (r: bool)
    requires
        names_unique(table_entries(*old(entries))),
    ensures
        names_unique(table_entries(*final(entries))),
        r == record_spec(table_entries(*old(entries)), name@, dir@, state@, id, fuel as nat) is Some,
        r ==> table_entries(*final(entries)) == record_spec(
            table_entries(*old(entries)),
            name@,
            dir@,
            state@,
            id,
            fuel as nat,
        )->Some_0,
        !r ==> table_entries(*final(entries)) == table_entries(*old(entries)),
{
    let backup = table_clone(entries);
    let ok = record_steps(entries, name, dir, state, id, fuel);
    if !ok {
        *entries = backup;
    }
    ok
}

/// The renaming steps of [`record_packet_name`], which leave the table
/// half renamed when they run out.
fn record_steps(
    entries: &mut PacketTable,
    name: String,
    dir: &str,
    state: &str,
    id: i32,
    fuel: usize,
) -> (r: bool)
    requires
        names_unique(table_entries(*old(entries))),
    ensures
        names_unique(table_entries(*final(entries))),
        r == record_spec(table_entries(*old(entries)), name@, dir@, state@, id, fuel as nat) is Some,
        r ==> table_entries(*final(entries)) == record_spec(
            table_entries(*old(entries)),
            name@,
            dir@,
            state@,
            id,
            fuel as nat,
        )->Some_0,
    decreases fuel,
{
    if fuel == 0 {
        return false;
    }
    match table_shift_remove(entries, name.as_str()) {
        None => {
            table_insert(entries, name, (dir.to_owned(), state.to_owned(), id));
            true
        },
        Some(other) => {
            proof {
                reveal_strlit("_");
                assert("_"@ =~= seq!['_']);
            }
            let (other_dir, other_state, other_id) = other;
            let same_way = same_text(other_dir.as_str(), dir);
            let (first, second) = if same_way {
                let stem = concat_str(name, "_");
                (concat_str(stem.clone(), other_state.as_str()), concat_str(stem, state))
            } else {
                let first = concat_str(concat_str(other_dir.clone(), "_"), name.as_str());
                let second = concat_str(concat_str(dir.to_owned(), "_"), name.as_str());
                (first, second)
            };
            let ok = record_steps(
                entries,
                first,
                other_dir.as_str(),
                other_state.as_str(),
                other_id,
                fuel - 1,
            );
            if !ok {
                return false;
            }
            record_steps(entries, second, dir, state, id, fuel - 1)
        },
    }
}

} // verus!
