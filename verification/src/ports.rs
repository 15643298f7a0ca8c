//! The devices that can be seen, by name.

use vstd::prelude::*;
use crate::error::KeyboardError;

verus! {

/// Whether the device with number `id` reads as `name`.
pub open spec fn is_port(names: Seq<Option<String>>, name: Seq<char>, id: int) -> bool {
    &&& 0 <= id < names.len()
    &&& names[id] matches Some(s)
    &&& s@ == name
}

/// The number of the device that answers to `name`: the last one of that
/// name, as a later device takes the name from an earlier one.
pub open spec fn last_port(names: Seq<Option<String>>, name: Seq<char>) -> Option<int>
    decreases names.len(),
{
    if names.len() == 0 {
        None
    } else if is_port(names, name, names.len() - 1) {
        Some(names.len() - 1)
    } else {
        last_port(names.drop_last(), name)
    }
}

/// From each name that can be read to the number of its device.
///
/// `names[i]` is the name of the device with number `i`, or `None` where the
/// name could not be read; such a device is left out.
pub open spec fn port_map(names: Seq<Option<String>>) -> Map<Seq<char>, usize> {
    Map::new(
        |name: Seq<char>| last_port(names, name) is Some,
        |name: Seq<char>| last_port(names, name).unwrap() as usize,
    )
}

/// One device: its name and its number.
#[derive(Clone, Debug, PartialEq, Eq)]
pub struct Port {
    pub name: String,
    pub id: usize,
}

/// The devices that were visible at one moment, each name once.
pub struct Ports {
    entries: Vec<Port>,
}

/// The map that a list of ports stands for; a later entry wins.
spec fn entries_map(entries: Seq<Port>) -> Map<Seq<char>, usize>
    decreases entries.len(),
{
    if entries.len() == 0 {
        Map::empty()
    } else {
        entries_map(entries.drop_last()).insert(entries.last().name@, entries.last().id)
    }
}

/// No name twice.
spec fn distinct(entries: Seq<Port>) -> bool {
    forall|a: int, b: int|
        0 <= a < b < entries.len() ==> (#[trigger] entries[a]).name@ != (#[trigger] entries[b]).name@
}

proof fn lemma_entries_absent(entries: Seq<Port>, name: Seq<char>)
    requires
        forall|k: int| 0 <= k < entries.len() ==> (#[trigger] entries[k]).name@ != name,
    ensures
        !entries_map(entries).contains_key(name),
    decreases entries.len(),
{
    if entries.len() > 0 {
        lemma_entries_absent(entries.drop_last(), name);
    }
}

proof fn lemma_entries_lookup(entries: Seq<Port>, k: int)
    requires
        distinct(entries),
        0 <= k < entries.len(),
    ensures
        entries_map(entries).contains_key(entries[k].name@),
        entries_map(entries)[entries[k].name@] == entries[k].id,
    decreases entries.len(),
{
    if k < entries.len() - 1 {
        lemma_entries_lookup(entries.drop_last(), k);
        assert(entries[k].name@ != entries[entries.len() - 1].name@);
    }
}

proof fn lemma_entries_update(entries: Seq<Port>, k: int, port: Port)
    requires
        distinct(entries),
        0 <= k < entries.len(),
        port.name@ == entries[k].name@,
    ensures
        distinct(entries.update(k, port)),
        entries_map(entries.update(k, port)) == entries_map(entries).insert(port.name@, port.id),
    decreases entries.len(),
{
    let updated = entries.update(k, port);
    assert forall|a: int, b: int| 0 <= a < b < updated.len() implies (#[trigger] updated[a]).name@
        != (#[trigger] updated[b]).name@ by {
        assert(entries[a].name@ != entries[b].name@);
    }
    if k == entries.len() - 1 {
        assert(updated.drop_last() =~= entries.drop_last());
        assert(entries_map(updated) =~= entries_map(entries).insert(port.name@, port.id));
    } else {
        lemma_entries_update(entries.drop_last(), k, port);
        assert(updated.drop_last() =~= entries.drop_last().update(k, port));
        assert(entries[k].name@ != entries[entries.len() - 1].name@);
        assert(entries_map(updated) =~= entries_map(entries).insert(port.name@, port.id));
    }
}

/// `last_port` finds a device of the name, and none of that name comes after
/// it; it finds none only where no device reads as the name.
pub proof fn lemma_last_port(names: Seq<Option<String>>, name: Seq<char>)
    ensures
        match last_port(names, name) {
            Some(id) => is_port(names, name, id) && forall|j: int|
                id < j < names.len() ==> !is_port(names, name, j),
            None => forall|j: int| !is_port(names, name, j),
        },
    decreases names.len(),
{
    if names.len() > 0 && !is_port(names, name, names.len() - 1) {
        let init = names.drop_last();
        lemma_last_port(init, name);
        assert forall|j: int| is_port(names, name, j) implies is_port(init, name, j) by {}
        assert forall|j: int| is_port(init, name, j) implies is_port(names, name, j) by {}
    }
}

/// One more device: its name, where it can be read, now leads to it.
proof fn lemma_port_map_push(names: Seq<Option<String>>, next: Option<String>)
    requires
        names.len() < usize::MAX,
    ensures
        port_map(names.push(next)) == (match next {
            Some(s) => port_map(names).insert(s@, names.len() as usize),
            None => port_map(names),
        }),
{
    let more = names.push(next);
    assert(more.drop_last() =~= names);
    match next {
        Some(s) => {
            assert(port_map(more) =~= port_map(names).insert(s@, names.len() as usize));
        },
        None => {
            assert(port_map(more) =~= port_map(names));
        },
    }
}

impl View for Ports {
    type V = Map<Seq<char>, usize>;

    closed spec fn view(&self) -> Map<Seq<char>, usize> {
        entries_map(self.entries@)
    }
}

impl Ports {
    #[verifier::type_invariant]
    spec fn each_name_once(self) -> bool {
        distinct(self.entries@)
    }

    /// The devices of `names`: `names[i]` is the name of device `i`, `None`
    /// where it could not be read. Such a device is left out, and of two
    /// devices of one name the later one is kept.
    pub fn collect(names: &Vec<Option<String>>) -> (ports: Ports)
        ensures
            ports@ == port_map(names@),
    {
        let mut entries: Vec<Port> = Vec::new();
        let mut i: usize = 0;
        assert(names@.take(0) =~= Seq::<Option<String>>::empty());
        assert(port_map(names@.take(0)) =~= entries_map(entries@));
        while i < names.len()
            invariant
                i <= names@.len(),
                distinct(entries@),
                entries_map(entries@) == port_map(names@.take(i as int)),
            decreases names@.len() - i,
        {
            proof {
                assert(names@.take(i + 1) =~= names@.take(i as int).push(names@[i as int]));
                lemma_port_map_push(names@.take(i as int), names@[i as int]);
            }
            match &names[i] {
                Some(name) => {
                    let port = Port { name: name.clone(), id: i };
                    match position(&entries, name) {
                        Some(k) => {
                            proof {
                                lemma_entries_update(entries@, k as int, port);
                            }
                            entries.set(k, port);
                        },
                        None => {
                            proof {
                                let more = entries@.push(port);
                                assert(more.drop_last() =~= entries@);
                                assert forall|a: int, b: int|
                                    0 <= a < b < more.len() implies (#[trigger] more[a]).name@ != (
                                #[trigger] more[b]).name@ by {
                                    if b < entries@.len() {
                                        assert(entries@[a].name@ != entries@[b].name@);
                                    }
                                }
                            }
                            entries.push(port);
                        },
                    }
                },
                None => {},
            }
            i = i + 1;
        }
        assert(names@.take(i as int) =~= names@);
        Ports { entries }
    }

    /// The number of the device that answers to `name`, if there is one.
    pub fn get(&self, name: &str) -> (id: Option<usize>)
        ensures
            id == (if self@.contains_key(name@) {
                Some(self@[name@])
            } else {
                None
            }),
    {
        proof {
            use_type_invariant(self);
        }
        let wanted = name.to_owned();
        match position(&self.entries, &wanted) {
            Some(k) => {
                proof {
                    lemma_entries_lookup(self.entries@, k as int);
                }
                Some(self.entries[k].id)
            },
            None => {
                proof {
                    lemma_entries_absent(self.entries@, name@);
                }
                None
            },
        }
    }

    /// The number of the device that answers to `name`; where none does, the
    /// device is not found.
    pub fn find(&self, name: &str) -> (r: Result<usize, KeyboardError>)
        ensures
            match r {
                Ok(id) => self@.contains_key(name@) && self@[name@] == id,
                Err(e) => !self@.contains_key(name@) && e == KeyboardError::DeviceNotFound,
            },
    {
        match self.get(name) {
            Some(id) => Ok(id),
            None => Err(KeyboardError::DeviceNotFound),
        }
    }

    /// The names of the devices, each once.
    pub fn names(&self) -> (list: Vec<String>)
        ensures
            forall|name: Seq<char>|
                self@.contains_key(name) <==> exists|k: int|
                    0 <= k < list@.len() && (#[trigger] list@[k])@ == name,
            forall|a: int, b: int|
                0 <= a < b < list@.len() ==> (#[trigger] list@[a])@ != (#[trigger] list@[b])@,
    {
        proof {
            use_type_invariant(self);
        }
        let mut list: Vec<String> = Vec::new();
        let mut i: usize = 0;
        while i < self.entries.len()
            invariant
                i <= self.entries@.len(),
                list@.len() == i,
                forall|k: int| 0 <= k < i ==> (#[trigger] list@[k])@ == self.entries@[k].name@,
            decreases self.entries@.len() - i,
        {
            list.push(self.entries[i].name.clone());
            i = i + 1;
        }
        proof {
            let entries = self.entries@;
            assert forall|name: Seq<char>|
                self@.contains_key(name) <==> exists|k: int|
                    0 <= k < list@.len() && (#[trigger] list@[k])@ == name by {
                if exists|k: int| 0 <= k < list@.len() && (#[trigger] list@[k])@ == name {
                    let k = choose|k: int| 0 <= k < list@.len() && (#[trigger] list@[k])@ == name;
                    lemma_entries_lookup(entries, k);
                } else {
                    assert forall|k: int| 0 <= k < entries.len() implies (
                    #[trigger] entries[k]).name@ != name by {
                        assert(list@[k]@ == entries[k].name@);
                    }
                    lemma_entries_absent(entries, name);
                }
            }
            assert forall|a: int, b: int| 0 <= a < b < list@.len() implies (#[trigger] list@[a])@
                != (#[trigger] list@[b])@ by {
                assert(entries[a].name@ != entries[b].name@);
            }
        }
        list
    }
}

/// Where in `entries` the port of this name stands.
fn position(entries: &Vec<Port>, name: &String) -> (at: Option<usize>)
    ensures
        match at {
            Some(k) => k < entries@.len() && entries@[k as int].name@ == name@,
            None => forall|k: int| 0 <= k < entries@.len() ==> (#[trigger] entries@[k]).name@ != name@,
        },
{
    let mut k: usize = 0;
    while k < entries.len()
        invariant
            k <= entries@.len(),
            forall|j: int| 0 <= j < k ==> (#[trigger] entries@[j]).name@ != name@,
        decreases entries@.len() - k,
    {
        if entries[k].name == *name {
            return Some(k);
        }
        k = k + 1;
    }
    None
}

} // verus!
