//! Hooks: named extension points. Plugins register callbacks under a hook's
//! name; dispatching the hook calls them in registration order.
use crate::str_map::StrMap;
use crate::text::to_string;
use std::rc::Rc;
use vstd::prelude::*;

verus! {

/// Unique identifier for a registered hook callback.
#[derive(Debug, Clone, Copy, PartialEq, Eq, Structural, Hash)]
pub struct HookId(pub usize);

/// A registered callback with its unique ID.
pub struct HookCallback<F> {
    pub id: HookId,
    pub callback: Rc<F>,
}

/// Registry mapping hook names to their registered callbacks. `F` is the
/// callback type, such as a boxed closure from the argument strings to the
/// result strings.
pub struct HookRegistry<F> {
    hooks: StrMap<Vec<HookCallback<F>>>,
    next_id: usize,
}

/// The callbacks registered under one hook: their ids and callbacks, in order.
pub open spec fn callbacks_view<F>(v: Seq<HookCallback<F>>) -> Seq<(HookId, F)> {
    v.map_values(|c: HookCallback<F>| (c.id, *c.callback))
}

impl<F> HookRegistry<F> {
    /// The callbacks of each hook name that has any entry.
    pub closed spec fn hooks_view(&self) -> Map<Seq<char>, Seq<(HookId, F)>> {
        self.hooks@.map_values(|v: Vec<HookCallback<F>>| callbacks_view(v@))
    }

    /// The id the next registration gets.
    pub closed spec fn next_id_spec(&self) -> usize {
        self.next_id
    }

    /// The callbacks registered under `name`, in registration order.
    pub open spec fn callbacks_of(&self, name: Seq<char>) -> Seq<(HookId, F)> {
        if self.hooks_view().contains_key(name) {
            self.hooks_view()[name]
        } else {
            Seq::empty()
        }
    }

    /// Every id in the registry is below the next id.
    pub closed spec fn wf(&self) -> bool {
        forall|name: Seq<char>, i: int|
            #![trigger self.hooks_view()[name][i]]
            self.hooks_view().contains_key(name) && 0 <= i < self.hooks_view()[name].len()
                ==> self.hooks_view()[name][i].0.0 < self.next_id
    }

    /// Creates an empty hook registry.
    pub fn new() -> (r: Self)
        ensures
            r.wf(),
            r.next_id_spec() == 0,
            forall|name: Seq<char>| r.callbacks_of(name) == Seq::<(HookId, F)>::empty(),
    {
        let r = HookRegistry { hooks: StrMap::new(), next_id: 0 };
        assert(r.hooks_view() =~= Map::<Seq<char>, Seq<(HookId, F)>>::empty());
        r
    }
}

impl<F> Default for HookRegistry<F> {
    /// An empty registry.
    fn default() -> (r: Self)
        ensures
            r.wf(),
            r.next_id_spec() == 0,
            forall|name: Seq<char>| r.callbacks_of(name) == Seq::<(HookId, F)>::empty(),
    {
        Self::new()
    }
}

/// Registers a callback under a hook name and returns its id: ids are given
/// out in increasing order from 0, and the callback goes after those already
/// registered under that name.
pub fn register_hook<F>(registry: &mut HookRegistry<F>, hook_name: &str, callback: Rc<F>) -> (id: HookId)
    requires
        old(registry).wf(),
        old(registry).next_id_spec() < usize::MAX,
    ensures
        final(registry).wf(),
        id == HookId(old(registry).next_id_spec()),
        final(registry).next_id_spec() == old(registry).next_id_spec() + 1,
        final(registry).callbacks_of(hook_name@) == old(registry).callbacks_of(hook_name@).push((id, *callback)),
        forall|name: Seq<char>| name != hook_name@ ==> final(registry).callbacks_of(name) == old(registry).callbacks_of(name),
{
    let id = HookId(registry.next_id);
    registry.next_id = registry.next_id + 1;
    let mut list = match registry.hooks.remove(hook_name) {
        Some(v) => v,
        None => Vec::new(),
    };
    let ghost l0 = list@;
    list.push(HookCallback { id, callback });
    registry.hooks.insert(to_string(hook_name), list);
    proof {
        assert(callbacks_view(list@) =~= callbacks_view(l0).push((id, *callback)));
        let hv = registry.hooks_view();
        let ov = old(registry).hooks_view();
        assert forall|name: Seq<char>| name != hook_name@ implies registry.callbacks_of(name) == old(registry).callbacks_of(
            name,
        ) by {
            if ov.contains_key(name) {
                assert(hv.contains_key(name));
            }
        }
        assert forall|name: Seq<char>, i: int|
            #![trigger hv[name][i]]
            hv.contains_key(name) && 0 <= i < hv[name].len() implies hv[name][i].0.0 < registry.next_id by {
            if name != hook_name@ {
                assert(ov.contains_key(name));
                assert(ov[name][i] == hv[name][i]);
            } else if i < l0.len() {
                assert(ov.contains_key(name));
                assert(ov[name][i] == hv[name][i]);
            }
        }
    }
    id
}

/// Calls every callback registered under a hook, in registration order, with
/// `args`, and returns their results in that order (empty for an unknown hook).
pub fn dispatch_hook<F: Fn(&[String]) -> Vec<String>>(registry: &HookRegistry<F>, hook_name: &str, args: &[String]) -> (r: Vec<Vec<String>>)
    requires
        forall|i: int|
            0 <= i < registry.callbacks_of(hook_name@).len() ==> call_requires(
                #[trigger] registry.callbacks_of(hook_name@)[i].1,
                (args,),
            ),
    ensures
        r@.len() == registry.callbacks_of(hook_name@).len(),
        forall|i: int|
            0 <= i < r@.len() ==> call_ensures(registry.callbacks_of(hook_name@)[i].1, (args,), #[trigger] r@[i]),
{
    let mut r: Vec<Vec<String>> = Vec::new();
    match registry.hooks.get(hook_name) {
        None => {},
        Some(list) => {
            proof {
                assert(callbacks_view(list@) == registry.callbacks_of(hook_name@));
            }
            let mut i: usize = 0;
            while i < list.len()
                invariant
                    i <= list@.len(),
                    r@.len() == i,
                    callbacks_view(list@) == registry.callbacks_of(hook_name@),
                    forall|k: int|
                        0 <= k < list@.len() ==> call_requires(#[trigger] callbacks_view(list@)[k].1, (args,)),
                    forall|k: int| 0 <= k < i ==> call_ensures(callbacks_view(list@)[k].1, (args,), #[trigger] r@[k]),
                decreases list@.len() - i,
            {
                let f: &F = &*list[i].callback;
                proof {
                    assert(callbacks_view(list@)[i as int].1 == *f);
                }
                let out = f(args);
                r.push(out);
                i = i + 1;
            }
        },
    }
    r
}

/// Returns the callbacks registered under a hook, in registration order, so
/// that they can be called after the registry is released.
pub fn get_callbacks<F>(registry: &HookRegistry<F>, hook_name: &str) -> (r: Vec<Rc<F>>)
    ensures
        r@.len() == registry.callbacks_of(hook_name@).len(),
        forall|i: int| 0 <= i < r@.len() ==> *#[trigger] r@[i] == registry.callbacks_of(hook_name@)[i].1,
{
    let mut r: Vec<Rc<F>> = Vec::new();
    match registry.hooks.get(hook_name) {
        None => {},
        Some(list) => {
            let mut i: usize = 0;
            while i < list.len()
                invariant
                    i <= list@.len(),
                    r@.len() == i,
                    callbacks_view(list@) == registry.callbacks_of(hook_name@),
                    forall|k: int| 0 <= k < i ==> *#[trigger] r@[k] == *list@[k].callback,
                decreases list@.len() - i,
            {
                r.push(Rc::clone(&list[i].callback));
                i = i + 1;
            }
            proof {
                assert forall|k: int| 0 <= k < r@.len() implies *#[trigger] r@[k]
                    == registry.callbacks_of(hook_name@)[k].1 by {
                    assert(callbacks_view(list@)[k].1 == *list@[k].callback);
                }
            }
        },
    }
    r
}

/// Removes the callbacks with id `id` from a hook; the other callbacks keep
/// their order. Nothing changes for an unknown hook or id.
pub fn unregister_hook<F>(registry: &mut HookRegistry<F>, hook_name: &str, id: HookId)
    requires
        old(registry).wf(),
    ensures
        final(registry).wf(),
        final(registry).next_id_spec() == old(registry).next_id_spec(),
        final(registry).callbacks_of(hook_name@) == old(registry).callbacks_of(hook_name@).filter(
            |c: (HookId, F)| c.0 != id,
        ),
        forall|name: Seq<char>| name != hook_name@ ==> final(registry).callbacks_of(name) == old(registry).callbacks_of(name),
{
    match registry.hooks.remove(hook_name) {
        None => {
            proof {
                assert(registry.hooks@ == old(registry).hooks@);
                assert(Seq::<(HookId, F)>::empty().filter(|c: (HookId, F)| c.0 != id) =~= Seq::<(HookId, F)>::empty());
            }
        },
        Some(list) => {
            let ghost src = callbacks_view(list@);
            let ghost keep = |c: (HookId, F)| c.0 != id;
            let mut list = list;
            let mut i: usize = 0;
            let ghost mut j: int = 0;
            let ghost limit = registry.next_id;
            proof {
                assert(old(registry).hooks_view().contains_key(hook_name@));
                assert(old(registry).hooks_view()[hook_name@] == src);
                assert forall|k: int| 0 <= k < list@.len() implies (#[trigger] list@[k]).id.0 < limit by {
                    assert(old(registry).hooks_view()[hook_name@][k] == src[k]);
                }
            }
            while i < list.len()
                invariant
                    forall|k: int| 0 <= k < list@.len() ==> (#[trigger] list@[k]).id.0 < limit,
                    0 <= j <= src.len(),
                    keep == (|c: (HookId, F)| c.0 != id),
                    callbacks_view(list@) == src.subrange(0, j).filter(keep) + src.subrange(j, src.len() as int),
                    i == src.subrange(0, j).filter(keep).len(),
                decreases list@.len() - i,
            {
                let ghost before = callbacks_view(list@);
                let ghost bl = list@;
                proof {
                    assert(src.subrange(0, j + 1).drop_last() =~= src.subrange(0, j));
                    assert(before[i as int] == src[j]);
                    reveal_with_fuel(Seq::filter, 1);
                }
                if list[i].id == id {
                    list.remove(i);
                    proof {
                        assert(list@ == bl.remove(i as int));
                        assert(callbacks_view(list@) =~= before.remove(i as int));
                        assert(src.subrange(0, j + 1).filter(keep) =~= src.subrange(0, j).filter(keep));
                        assert(callbacks_view(list@) =~= src.subrange(0, j + 1).filter(keep) + src.subrange(
                            j + 1,
                            src.len() as int,
                        ));
                    }
                } else {
                    i = i + 1;
                    proof {
                        assert(src.subrange(0, j + 1).filter(keep) =~= src.subrange(0, j).filter(keep).push(src[j]));
                        assert(callbacks_view(list@) =~= src.subrange(0, j + 1).filter(keep) + src.subrange(
                            j + 1,
                            src.len() as int,
                        ));
                    }
                }
                proof {
                    j = j + 1;
                }
            }
            proof {
                assert(src.subrange(0, j) =~= src);
                assert(callbacks_view(list@) =~= src.filter(keep));
            }
            registry.hooks.insert(to_string(hook_name), list);
            proof {
                let hv = registry.hooks_view();
                let ov = old(registry).hooks_view();
                assert forall|name: Seq<char>| name != hook_name@ implies registry.callbacks_of(name)
                    == old(registry).callbacks_of(name) by {
                    if ov.contains_key(name) {
                        assert(hv.contains_key(name));
                    }
                }
                assert forall|name: Seq<char>, k: int|
                    #![trigger hv[name][k]]
                    hv.contains_key(name) && 0 <= k < hv[name].len() implies hv[name][k].0.0 < registry.next_id by {
                    if name != hook_name@ {
                        assert(ov[name][k] == hv[name][k]);
                    } else {
                        assert(hv[name] == callbacks_view(list@));
                        assert(hv[name][k].0 == list@[k].id);
                    }
                }
            }
        },
    }
}


proof fn lemma_filter_keeps_all<A>(s: Seq<A>, pred: spec_fn(A) -> bool)
    requires
        forall|i: int| 0 <= i < s.len() ==> pred(#[trigger] s[i]),
    ensures
        s.filter(pred) == s,
    decreases s.len(),
{
    reveal_with_fuel(Seq::filter, 1);
    if s.len() > 0 {
        lemma_filter_keeps_all(s.drop_last(), pred);
        assert(s.drop_last().push(s.last()) =~= s);
    } else {
        assert(s.filter(pred) =~= s);
    }
}

/// Unregistering the id that a registration returned undoes it: the hook's
/// callbacks are those it had before the registration.
pub proof fn unregister_undoes_register<F>(registry: HookRegistry<F>, name: Seq<char>, callback: F)
    requires
        registry.wf(),
    ensures
        ({
            let id = HookId(registry.next_id_spec());
            registry.callbacks_of(name).push((id, callback)).filter(|c: (HookId, F)| c.0 != id)
                == registry.callbacks_of(name)
        }),
{
    let id = HookId(registry.next_id_spec());
    let before = registry.callbacks_of(name);
    let pred = |c: (HookId, F)| c.0 != id;
    assert forall|i: int| 0 <= i < before.len() implies pred(#[trigger] before[i]) by {
        assert(registry.hooks_view().contains_key(name));
        assert(registry.hooks_view()[name][i] == before[i]);
    }
    lemma_filter_keeps_all(before, pred);
    reveal_with_fuel(Seq::filter, 1);
    assert(before.push((id, callback)).drop_last() =~= before);
}

/// Every id handed out so far, under any hook name, is below the id that the
/// next registration returns: ids are never given out twice.
pub proof fn registered_ids_precede_the_next<F>(registry: HookRegistry<F>, name: Seq<char>, i: int)
    requires
        registry.wf(),
        0 <= i < registry.callbacks_of(name).len(),
    ensures
        registry.callbacks_of(name)[i].0.0 < registry.next_id_spec(),
        registry.callbacks_of(name)[i].0 != HookId(registry.next_id_spec()),
{
    assert(registry.hooks_view().contains_key(name));
    assert(registry.hooks_view()[name][i] == registry.callbacks_of(name)[i]);
}

/// Registrations one after another from a new registry (whose next id is 0,
/// as `new` gives it): with `next_ids[j]` the registry's next id before the
/// `j`-th registration and `ids[j]` the id it returned, as `register_hook`
/// relates them, the ids run 0, 1, 2, ... in order.
pub proof fn ids_count_up_from_zero(next_ids: Seq<usize>, ids: Seq<HookId>)
    requires
        next_ids.len() == ids.len() + 1,
        next_ids[0] == 0,
        forall|j: int|
            0 <= j < ids.len() ==> #[trigger] ids[j] == HookId(next_ids[j]) && next_ids[j + 1] == next_ids[j] + 1,
    ensures
        forall|j: int| 0 <= j < ids.len() ==> #[trigger] ids[j].0 == j,
{
    assert forall|j: int| 0 <= j <= ids.len() implies #[trigger] next_ids[j] == j by {
        lemma_next_ids(next_ids, ids, j);
    }
    assert forall|j: int| 0 <= j < ids.len() implies #[trigger] ids[j].0 == j by {
        assert(next_ids[j] == j);
    }
}

proof fn lemma_next_ids(next_ids: Seq<usize>, ids: Seq<HookId>, j: int)
    requires
        next_ids.len() == ids.len() + 1,
        next_ids[0] == 0,
        forall|j: int|
            0 <= j < ids.len() ==> #[trigger] ids[j] == HookId(next_ids[j]) && next_ids[j + 1] == next_ids[j] + 1,
        0 <= j <= ids.len(),
    ensures
        next_ids[j] == j,
    decreases j,
{
    if j > 0 {
        lemma_next_ids(next_ids, ids, j - 1);
        assert(ids[j - 1] == HookId(next_ids[j - 1]));
    }
}
} // verus!
