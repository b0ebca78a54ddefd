//! Registration of filters.
//!
//! A registry maps the names of filters to what creates them. Custom filters
//! are registered after the built-in ones, and none can take a name that is in
//! use.

use vstd::prelude::*;
use vstd::string::*;

use crate::text::same_text;

verus! {

/// What creates a filter.
#[derive(Debug)]
pub enum FilterFactory<H, T> {
    /// A factory of HTTP filters.
    Http(H),
    /// A factory of TCP filters.
    Tcp(T),
}

/// The error of a registration under a name that is in use.
#[derive(Debug)]
pub struct DuplicateFilter {
    /// The name.
    pub name: String,
}

/// What the error of a registration under a name that is in use says.
pub open spec fn duplicate_message(name: Seq<char>) -> Seq<char> {
    "duplicate filter name: '"@ + name + "'"@
}

impl DuplicateFilter {
    /// What is wrong, for a reader.
    pub fn to_string(&self) -> (res: String)
        ensures
            res@ == duplicate_message(self.name@),
    {
        let mut message: String = "duplicate filter name: '".to_owned();
        message.append(self.name.as_str());
        message.append("'");
        message
    }
}

/// The filters of a registry, each under its name, in the order of their
/// registration.
pub type Registered<H, T> = Seq<(Seq<char>, FilterFactory<H, T>)>;

/// The names of the filters of a registry.
pub open spec fn names<H, T>(registered: Registered<H, T>) -> Seq<Seq<char>> {
    registered.map_values(|entry: (Seq<char>, FilterFactory<H, T>)| entry.0)
}

/// What a list of filters stands for.
pub open spec fn entries_view<H, T>(entries: Seq<(String, FilterFactory<H, T>)>) -> Registered<
    H,
    T,
> {
    entries.map_values(|entry: (String, FilterFactory<H, T>)| (entry.0@, entry.1))
}

/// What creates the filter with a name.
pub open spec fn lookup<H, T>(registered: Registered<H, T>, name: Seq<char>) -> Option<
    FilterFactory<H, T>,
> {
    if names(registered).contains(name) {
        Some(registered[names(registered).index_of(name)].1)
    } else {
        None
    }
}

/// The place of the first of `additions` whose name is in use, by a filter
/// of `registered` or by an earlier one of `additions`; their number where
/// there is none.
pub open spec fn first_clash<H, T>(
    registered: Registered<H, T>,
    additions: Registered<H, T>,
) -> int
    decreases additions.len(),
{
    if additions.len() == 0 || names(registered).contains(additions[0].0) {
        0
    } else {
        1 + first_clash(registered.push(additions[0]), additions.skip(1))
    }
}

/// What a registration of `additions` leaves in a registry.
pub open spec fn after_registration<H, T>(
    registered: Registered<H, T>,
    additions: Registered<H, T>,
) -> Registered<H, T> {
    registered + additions.take(first_clash(registered, additions))
}

/// The filters that are available, by name.
pub struct FilterRegistry<H, T> {
    entries: Vec<(String, FilterFactory<H, T>)>,
}

impl<H, T> View for FilterRegistry<H, T> {
    type V = Registered<H, T>;

    closed spec fn view(&self) -> Registered<H, T> {
        entries_view(self.entries@)
    }
}

impl<H, T> FilterRegistry<H, T> {
    #[verifier::type_invariant]
    spec fn well_formed(self) -> bool {
        names(entries_view(self.entries@)).no_duplicates()
    }

    /// A registry without filters.
    pub fn new() -> (res: Self)
        ensures
            res@ == Seq::<(Seq<char>, FilterFactory<H, T>)>::empty(),
    {
        let entries: Vec<(String, FilterFactory<H, T>)> = Vec::new();
        assert(entries_view(entries@) =~= Seq::empty());
        assert(names(entries_view(entries@)) =~= Seq::empty());
        FilterRegistry { entries }
    }

    fn position(&self, name: &str) -> (res: Option<usize>)
        ensures
            match res {
                Some(i) => {
                    &&& i < self.entries@.len()
                    &&& names(self@).contains(name@)
                    &&& names(self@).index_of(name@) == i
                },
                None => !names(self@).contains(name@),
            },
    {
        proof {
            use_type_invariant(self);
        }
        let mut i: usize = 0;
        while i < self.entries.len()
            invariant
                i <= self.entries@.len(),
                names(self@).no_duplicates(),
                names(self@).len() == self.entries@.len(),
                forall|j: int| 0 <= j < i ==> names(self@)[j] != name@,
            decreases self.entries@.len() - i,
        {
            if same_text(self.entries[i].0.as_str(), name) {
                assert(names(self@)[i as int] == name@);
                return Some(i);
            }
            i += 1;
        }
        None
    }

    /// Registers a filter under a name that is not in use.
    pub fn register(&mut self, name: &str, factory: FilterFactory<H, T>) -> (res: Result<
        (),
        DuplicateFilter,
    >)
        ensures
            match res {
                Ok(()) => {
                    &&& !names(old(self)@).contains(name@)
                    &&& final(self)@ == old(self)@.push((name@, factory))
                },
                Err(error) => {
                    &&& names(old(self)@).contains(name@)
                    &&& error.name@ == name@
                    &&& final(self)@ == old(self)@
                },
            },
    {
        if self.position(name).is_some() {
            return Err(DuplicateFilter { name: name.to_owned() });
        }
        proof {
            use_type_invariant(&*self);
        }
        let mut entries: Vec<(String, FilterFactory<H, T>)> = Vec::new();
        assert(names(entries_view(entries@)) =~= Seq::empty());
        std::mem::swap(&mut entries, &mut self.entries);
        entries.push((name.to_owned(), factory));
        proof {
            let before = old(self)@;
            assert(entries_view(entries@) =~= before.push((name@, factory)));
            assert(names(entries_view(entries@)) =~= names(before).push(name@));
            distinct_after_push(names(before), name@);
        }
        self.entries = entries;
        Ok(())
    }

    /// The names of the filters, in the order of their registration.
    pub fn available_filters(&self) -> (res: Vec<&str>)
        ensures
            res@.map_values(|name: &str| name@) == names(self@),
            names(self@).no_duplicates(),
    {
        proof {
            use_type_invariant(self);
        }
        let mut out: Vec<&str> = Vec::new();
        let mut i: usize = 0;
        while i < self.entries.len()
            invariant
                i <= self.entries@.len(),
                out@.len() == i,
                forall|j: int| 0 <= j < i ==> (#[trigger] out@[j])@ == names(self@)[j],
            decreases self.entries@.len() - i,
        {
            out.push(self.entries[i].0.as_str());
            i += 1;
        }
        assert(out@.map_values(|name: &str| name@) =~= names(self@));
        out
    }

    /// What creates the filter with a name.
    pub fn factory(&self, name: &str) -> (res: Option<&FilterFactory<H, T>>)
        ensures
            match lookup(self@, name@) {
                Some(factory) => res == Some(&factory),
                None => res is None,
            },
    {
        match self.position(name) {
            Some(i) => Some(&self.entries[i].1),
            None => None,
        }
    }
}

proof fn distinct_after_push(list: Seq<Seq<char>>, name: Seq<char>)
    requires
        list.no_duplicates(),
        !list.contains(name),
    ensures
        list.push(name).no_duplicates(),
{
    let after = list.push(name);
    assert forall|i: int, j: int|
        0 <= i < after.len() && 0 <= j < after.len() && i != j implies after[i] != after[j] by {
        if i == list.len() {
            assert(list[j] == after[j]);
        }
        if j == list.len() {
            assert(list[i] == after[i]);
        }
    }
}

/// Registers filters in order, up to the first whose name is in use.
pub fn register_filters<H, T>(
    registry: &mut FilterRegistry<H, T>,
    additions: Vec<(String, FilterFactory<H, T>)>,
) -> (res: Result<(), DuplicateFilter>)
    ensures
        ({
            let clash = first_clash(old(registry)@, entries_view(additions@));
            &&& final(registry)@ == after_registration(old(registry)@, entries_view(additions@))
            &&& match res {
                Ok(()) => clash == additions@.len(),
                Err(error) => clash < additions@.len() && error.name@ == additions@[clash].0@,
            }
        }),
{
    let mut rest = additions;
    let ghost all = entries_view(additions@);
    let ghost before = registry@;
    let ghost done: int = 0;
    assert(all.skip(0) =~= all);
    assert(before + all.take(0) =~= before);
    while rest.len() > 0
        invariant
            all == entries_view(additions@),
            before == old(registry)@,
            0 <= done <= all.len(),
            entries_view(rest@) == all.skip(done),
            registry@ == before + all.take(done),
            first_clash(before, all) == done + first_clash(registry@, all.skip(done)),
        decreases rest@.len(),
    {
        let ghost list = rest@;
        assert(entries_view(list)[0] == all.skip(done)[0]);
        assert(all.skip(done)[0] == all[done]);
        let (name, factory) = rest.remove(0);
        assert(rest@ =~= list.skip(1));
        assert forall|j: int| 0 <= j < rest@.len() implies #[trigger] entries_view(rest@)[j]
            == all.skip(done + 1)[j] by {
            assert(entries_view(list)[j + 1] == all.skip(done)[j + 1]);
        }
        assert(entries_view(list).len() == all.skip(done).len());
        assert(entries_view(rest@) =~= all.skip(done + 1));
        assert(all.skip(done).skip(1) =~= all.skip(done + 1));
        match registry.register(name.as_str(), factory) {
            Ok(()) => {
                assert(registry@ =~= before + all.take(done + 1));
                proof {
                    done = done + 1;
                }
            },
            Err(error) => {
                return Err(error);
            },
        }
    }
    assert(all.skip(done).len() == 0);
    Ok(())
}

/// A registry of the built-in filters and, after them, of custom ones.
pub fn custom_registry<H, T>(
    builtins: FilterRegistry<H, T>,
    additions: Vec<(String, FilterFactory<H, T>)>,
) -> (res: Result<FilterRegistry<H, T>, DuplicateFilter>)
    ensures
        ({
            let clash = first_clash(builtins@, entries_view(additions@));
            match res {
                Ok(registry) => {
                    &&& clash == additions@.len()
                    &&& registry@ == builtins@ + entries_view(additions@)
                },
                Err(error) => clash < additions@.len() && error.name@ == additions@[clash].0@,
            }
        }),
{
    let mut registry = builtins;
    match register_filters(&mut registry, additions) {
        Ok(()) => {
            assert(entries_view(additions@).take(additions@.len() as int) =~= entries_view(
                additions@,
            ));
            Ok(registry)
        },
        Err(error) => Err(error),
    }
}

// -----------------------------------------------------------------------------
// Laws
// -----------------------------------------------------------------------------

/// No two filters of a registry share a name, whatever is registered.
pub proof fn names_stay_distinct<H, T>(registered: Registered<H, T>, additions: Registered<H, T>)
    requires
        names(registered).no_duplicates(),
    ensures
        0 <= first_clash(registered, additions) <= additions.len(),
        names(after_registration(registered, additions)).no_duplicates(),
    decreases additions.len(),
{
    if additions.len() == 0 || names(registered).contains(additions[0].0) {
        assert(after_registration(registered, additions) =~= registered);
    } else {
        let next = registered.push(additions[0]);
        let rest = additions.skip(1);
        assert(names(next) =~= names(registered).push(additions[0].0));
        distinct_after_push(names(registered), additions[0].0);
        names_stay_distinct(next, rest);
        assert(after_registration(registered, additions) =~= after_registration(next, rest));
    }
}

proof fn lookup_at<H, T>(registered: Registered<H, T>, i: int)
    requires
        names(registered).no_duplicates(),
        0 <= i < registered.len(),
    ensures
        lookup(registered, registered[i].0) == Some(registered[i].1),
{
    assert(names(registered)[i] == registered[i].0);
    let k = names(registered).index_of(registered[i].0);
    assert(names(registered)[k] == names(registered)[i]);
}

/// A registration preserves the filters that were there, under their names,
/// and makes each that it registers available under its own.
pub proof fn registered_filters_are_found<H, T>(
    registered: Registered<H, T>,
    additions: Registered<H, T>,
    name: Seq<char>,
    i: int,
)
    requires
        names(registered).no_duplicates(),
    ensures
        names(registered).contains(name) ==> lookup(
            after_registration(registered, additions),
            name,
        ) == lookup(registered, name),
        0 <= i < first_clash(registered, additions) ==> lookup(
            after_registration(registered, additions),
            additions[i].0,
        ) == Some(additions[i].1),
{
    names_stay_distinct(registered, additions);
    let after = after_registration(registered, additions);
    if names(registered).contains(name) {
        let k = names(registered).index_of(name);
        assert(names(registered)[k] == name);
        assert(after[k] == registered[k]);
        lookup_at(after, k);
        lookup_at(registered, k);
    }
    if 0 <= i < first_clash(registered, additions) {
        assert(after[registered.len() + i] == additions[i]);
        lookup_at(after, registered.len() + i);
    }
}

/// A filter cannot take the name of one that is registered: the registration
/// ends there at the latest.
pub proof fn registered_names_are_refused<H, T>(
    registered: Registered<H, T>,
    additions: Registered<H, T>,
    i: int,
)
    requires
        0 <= i < additions.len(),
        names(registered).contains(additions[i].0),
    ensures
        first_clash(registered, additions) <= i,
    decreases additions.len(),
{
    if !names(registered).contains(additions[0].0) {
        let next = registered.push(additions[0]);
        let k = names(registered).index_of(additions[i].0);
        assert(names(registered)[k] == additions[i].0);
        assert(names(next)[k] == additions[i].0);
        assert(additions.skip(1)[i - 1] == additions[i]);
        registered_names_are_refused(next, additions.skip(1), i - 1);
    }
}

/// The names of a registry are those of its filters, in their order.
pub proof fn names_are_those_of_the_filters<H, T>(registered: Registered<H, T>)
    ensures
        names(registered).len() == registered.len(),
        forall|i: int|
            0 <= i < registered.len() ==> #[trigger] names(registered)[i] == registered[i].0,
{
}

/// A list of filters stands for their names and what creates them, in order.
pub proof fn lists_stand_for_their_filters<H, T>(entries: Seq<(String, FilterFactory<H, T>)>)
    ensures
        entries_view(entries).len() == entries.len(),
        forall|i: int|
            0 <= i < entries.len() ==> #[trigger] entries_view(entries)[i] == (
                entries[i].0@,
                entries[i].1,
            ),
{
}

/// Each filter of a registry is found under its name, and nothing is found
/// under a name that no filter has.
pub proof fn filters_are_found_by_name<H, T>(registered: Registered<H, T>, name: Seq<char>)
    requires
        names(registered).no_duplicates(),
    ensures
        forall|i: int|
            0 <= i < registered.len() ==> lookup(registered, (#[trigger] registered[i]).0) == Some(
                registered[i].1,
            ),
        (forall|i: int| 0 <= i < registered.len() ==> (#[trigger] registered[i]).0 != name)
            ==> lookup(registered, name) is None,
{
    assert forall|i: int| 0 <= i < registered.len() implies lookup(
        registered,
        (#[trigger] registered[i]).0,
    ) == Some(registered[i].1) by {
        lookup_at(registered, i);
    }
    if names(registered).contains(name) {
        let k = names(registered).index_of(name);
        assert(names(registered)[k] == registered[k].0);
    }
}

/// Filters whose names are distinct and not in use are all registered, however
/// many there are, behind those that were there.
pub proof fn fresh_names_are_all_registered<H, T>(
    registered: Registered<H, T>,
    additions: Registered<H, T>,
)
    requires
        forall|i: int, j: int|
            0 <= i < j < additions.len() ==> (#[trigger] additions[i]).0 != (
            #[trigger] additions[j]).0,
        forall|i: int, j: int|
            0 <= i < registered.len() && 0 <= j < additions.len() ==> (#[trigger] registered[i]).0
                != (#[trigger] additions[j]).0,
    ensures
        first_clash(registered, additions) == additions.len(),
        after_registration(registered, additions) == registered + additions,
    decreases additions.len(),
{
    if additions.len() > 0 {
        let next = registered.push(additions[0]);
        let rest = additions.skip(1);
        assert(!names(registered).contains(additions[0].0)) by {
            if names(registered).contains(additions[0].0) {
                let k = names(registered).index_of(additions[0].0);
                assert(registered[k].0 == additions[0].0);
            }
        }
        assert forall|i: int, j: int|
            0 <= i < next.len() && 0 <= j < rest.len() implies (#[trigger] next[i]).0 != (
        #[trigger] rest[j]).0 by {
            assert(rest[j] == additions[j + 1]);
            if i < registered.len() {
                assert(next[i] == registered[i]);
            } else {
                assert(next[i] == additions[0]);
            }
        }
        assert forall|i: int, j: int| 0 <= i < j < rest.len() implies (#[trigger] rest[i]).0 != (
        #[trigger] rest[j]).0 by {
            assert(rest[i] == additions[i + 1]);
            assert(rest[j] == additions[j + 1]);
        }
        fresh_names_are_all_registered(next, rest);
    }
    assert(additions.take(additions.len() as int) =~= additions);
}

/// A registration ends early only at a filter whose name one of those before it
/// has, registered or added.
pub proof fn only_names_in_use_are_refused<H, T>(
    registered: Registered<H, T>,
    additions: Registered<H, T>,
)
    ensures
        0 <= first_clash(registered, additions) <= additions.len(),
        first_clash(registered, additions) < additions.len() ==> {
            let name = additions[first_clash(registered, additions)].0;
            ||| exists|i: int| 0 <= i < registered.len() && (#[trigger] registered[i]).0 == name
            ||| exists|i: int|
                0 <= i < first_clash(registered, additions) && (#[trigger] additions[i]).0 == name
        },
    decreases additions.len(),
{
    if additions.len() > 0 {
        if names(registered).contains(additions[0].0) {
            let k = names(registered).index_of(additions[0].0);
            assert(names(registered)[k] == additions[0].0);
            assert(registered[k].0 == additions[0].0);
        } else {
            let next = registered.push(additions[0]);
            let rest = additions.skip(1);
            only_names_in_use_are_refused(next, rest);
            let clash = first_clash(next, rest);
            if clash < rest.len() {
                let name = rest[clash].0;
                assert(additions[clash + 1] == rest[clash]);
                if exists|i: int| 0 <= i < next.len() && (#[trigger] next[i]).0 == name {
                    let i = choose|i: int| 0 <= i < next.len() && (#[trigger] next[i]).0 == name;
                    if i < registered.len() {
                        assert(registered[i].0 == name);
                    } else {
                        assert(additions[0].0 == name);
                    }
                } else {
                    let i = choose|i: int| 0 <= i < clash && (#[trigger] rest[i]).0 == name;
                    assert(additions[i + 1].0 == name);
                }
            }
        }
    }
}

/// A registration ends at the first repeated name at the latest.
pub proof fn repeated_names_are_refused<H, T>(
    registered: Registered<H, T>,
    additions: Registered<H, T>,
    i: int,
    j: int,
)
    requires
        0 <= i < j < additions.len(),
        additions[i].0 == additions[j].0,
    ensures
        first_clash(registered, additions) <= j,
    decreases additions.len(),
{
    if !names(registered).contains(additions[0].0) {
        let next = registered.push(additions[0]);
        let rest = additions.skip(1);
        assert(rest[j - 1] == additions[j]);
        if i == 0 {
            assert(names(next)[registered.len() as int] == additions[j].0);
            registered_names_are_refused(next, rest, j - 1);
        } else {
            assert(rest[i - 1] == additions[i]);
            repeated_names_are_refused(next, rest, i - 1, j - 1);
        }
    }
}

/// The error of a refused registration names the filter, in quotes.
pub proof fn refusals_name_the_filter(name: Seq<char>)
    ensures
        duplicate_message(name) == "duplicate filter name: '"@ + name + "'"@,
{
}

} // verus!
