//! The Lisp list primitives: length, element access, building lists, ranges,
//! type tests, and applying a function over a list (map, filter, reduce,
//! for-each), where the function is called through a closure.
use crate::bridge::{require_list_arg, require_int_arg, required_int, required_list, Arg, ArgKind, Reply};
use crate::lisp_editor::fails_with;
use crate::text::to_string;
use vstd::prelude::*;

verus! {

/// Takes the list out of the argument at `index`, which is known to be a list.
fn take_list<T>(args: &mut Vec<Arg<T>>, index: usize) -> (items: Vec<T>)
    requires
        index < old(args)@.len(),
        old(args)@[index as int].kind is List,
    ensures
        old(args)@[index as int].kind matches ArgKind::List(v) && items@ == v@,
        final(args)@ == old(args)@.remove(index as int),
{
    let a = args.remove(index);
    match a.kind {
        ArgKind::List(v) => v,
        _ => Vec::new(),
    }
}

/// `(length list)`: the number of items of the list.
pub fn native_length<T>(args: &Vec<Arg<T>>) -> (r: Result<Reply<T>, String>)
    ensures
        match required_list(args@, 0, "length"@) {
            Err(m) => fails_with(r, m),
            Ok(v) => r == Ok::<Reply<T>, String>(Reply::Int(v.len() as i32)),
        },
{
    match require_list_arg(args, 0, "length") {
        Err(e) => Err(e),
        Ok(_) => match &args[0].kind {
            ArgKind::List(v) => Ok(Reply::Int(v.len() as i32)),
            _ => Ok(Reply::Nil),
        },
    }
}

/// What `(nth n list)` answers: the item at `n`, nil when `n` is negative or
/// past the end, or the error message.
pub open spec fn nth_outcome<T>(args: Seq<Arg<T>>) -> Result<Option<T>, Seq<char>> {
    match required_int(args, 0, "nth"@) {
        Err(m) => Err(m),
        Ok(n) => match required_list(args, 1, "nth"@) {
            Err(m) => Err(m),
            Ok(v) => if 0 <= n < v.len() {
                Ok(Some(v[n as int]))
            } else {
                Ok(None)
            },
        },
    }
}

/// `(nth n list)`: the item at index `n`, nil when there is none.
pub fn native_nth<T>(args: Vec<Arg<T>>) -> (r: Result<Reply<T>, String>)
    ensures
        match nth_outcome(args@) {
            Err(m) => fails_with(r, m),
            Ok(Some(x)) => r == Ok::<Reply<T>, String>(Reply::Item(x)),
            Ok(None) => r == Ok::<Reply<T>, String>(Reply::Nil),
        },
{
    let index = match require_int_arg(&args, 0, "nth") {
        Ok(n) => n,
        Err(e) => return Err(e),
    };
    match require_list_arg(&args, 1, "nth") {
        Err(e) => return Err(e),
        Ok(_) => {},
    }
    if index < 0 {
        return Ok(Reply::Nil);
    }
    let mut args = args;
    let mut items = take_list(&mut args, 1);
    let i = index as usize;
    if i < items.len() {
        Ok(Reply::Item(items.remove(i)))
    } else {
        Ok(Reply::Nil)
    }
}

/// `(first list)`: the first item, nil for an empty list.
pub fn native_first<T>(args: Vec<Arg<T>>) -> (r: Result<Reply<T>, String>)
    ensures
        match required_list(args@, 0, "first"@) {
            Err(m) => fails_with(r, m),
            Ok(v) => if v.len() > 0 {
                r == Ok::<Reply<T>, String>(Reply::Item(v[0]))
            } else {
                r == Ok::<Reply<T>, String>(Reply::Nil)
            },
        },
{
    match require_list_arg(&args, 0, "first") {
        Err(e) => return Err(e),
        Ok(_) => {},
    }
    let mut args = args;
    let mut items = take_list(&mut args, 0);
    if items.len() > 0 {
        Ok(Reply::Item(items.remove(0)))
    } else {
        Ok(Reply::Nil)
    }
}

/// `(rest list)`: the list without its first item (empty for an empty list).
pub fn native_rest<T>(args: Vec<Arg<T>>) -> (r: Result<Reply<T>, String>)
    ensures
        match required_list(args@, 0, "rest"@) {
            Err(m) => fails_with(r, m),
            Ok(v) => r matches Ok(Reply::List(w)) && w@ == (if v.len() > 0 {
                v.drop_first()
            } else {
                v
            }),
        },
{
    match require_list_arg(&args, 0, "rest") {
        Err(e) => return Err(e),
        Ok(_) => {},
    }
    let mut args = args;
    let mut items = take_list(&mut args, 0);
    if items.len() > 0 {
        let _ = items.remove(0);
    }
    Ok(Reply::List(items))
}

/// `(cons item list)`: the list with the item in front.
pub fn native_cons<T>(args: Vec<Arg<T>>) -> (r: Result<Reply<T>, String>)
    ensures
        args@.len() == 0 ==> fails_with(r, "cons: expected 2 arguments, got 0"@),
        args@.len() > 0 ==> match required_list(args@, 1, "cons"@) {
            Err(m) => fails_with(r, m),
            Ok(v) => r matches Ok(Reply::List(w)) && w@ == seq![args@[0].value] + v,
        },
{
    if args.len() == 0 {
        return Err(to_string("cons: expected 2 arguments, got 0"));
    }
    match require_list_arg(&args, 1, "cons") {
        Err(e) => return Err(e),
        Ok(_) => {},
    }
    let mut args = args;
    let ghost a0 = args@;
    let items = take_list(&mut args, 1);
    let first = args.remove(0);
    let mut out: Vec<T> = Vec::new();
    out.push(first.value);
    let mut items = items;
    out.append(&mut items);
    assert(out@ =~= seq![a0[0].value] + items_of(a0[1]));
    Ok(Reply::List(out))
}

/// The items of a list argument (empty for another kind).
pub open spec fn items_of<T>(a: Arg<T>) -> Seq<T> {
    match a.kind {
        ArgKind::List(v) => v@,
        _ => Seq::empty(),
    }
}

/// `(append list1 list2)`: the items of the first list, then of the second.
pub fn native_append<T>(args: Vec<Arg<T>>) -> (r: Result<Reply<T>, String>)
    ensures
        match required_list(args@, 0, "append"@) {
            Err(m) => fails_with(r, m),
            Ok(v) => match required_list(args@, 1, "append"@) {
                Err(m) => fails_with(r, m),
                Ok(w) => r matches Ok(Reply::List(out)) && out@ == v + w,
            },
        },
{
    match require_list_arg(&args, 0, "append") {
        Err(e) => return Err(e),
        Ok(_) => {},
    }
    match require_list_arg(&args, 1, "append") {
        Err(e) => return Err(e),
        Ok(_) => {},
    }
    let mut args = args;
    let mut second = take_list(&mut args, 1);
    let mut first = take_list(&mut args, 0);
    first.append(&mut second);
    Ok(Reply::List(first))
}

/// `(reverse list)`: the items in reverse order.
pub fn native_reverse<T>(args: Vec<Arg<T>>) -> (r: Result<Reply<T>, String>)
    ensures
        match required_list(args@, 0, "reverse"@) {
            Err(m) => fails_with(r, m),
            Ok(v) => r matches Ok(Reply::List(out)) && out@ == v.reverse(),
        },
{
    match require_list_arg(&args, 0, "reverse") {
        Err(e) => return Err(e),
        Ok(_) => {},
    }
    let mut args = args;
    let mut items = take_list(&mut args, 0);
    let ghost src = items@;
    let mut out: Vec<T> = Vec::new();
    while items.len() > 0
        invariant
            src.len() == items@.len() + out@.len(),
            items@ == src.subrange(0, items@.len() as int),
            out@ == src.subrange(items@.len() as int, src.len() as int).reverse(),
        decreases items@.len(),
    {
        let ghost n = items@.len();
        let x = items.pop().unwrap();
        out.push(x);
        assert(out@ =~= src.subrange(n - 1, src.len() as int).reverse());
    }
    Ok(Reply::List(out))
}

/// `(range start end)`: the integers from `start` up to `end`, not included.
pub fn native_range<T>(args: &Vec<Arg<T>>) -> (r: Result<Reply<T>, String>)
    ensures
        match required_int(args@, 0, "range"@) {
            Err(m) => fails_with(r, m),
            Ok(a) => match required_int(args@, 1, "range"@) {
                Err(m) => fails_with(r, m),
                Ok(b) => r matches Ok(Reply::Ints(v)) && v@ == Seq::new(
                    (if a < b {
                        b - a
                    } else {
                        0
                    }) as nat,
                    |i: int| (a + i) as i32,
                ),
            },
        },
{
    let start = match require_int_arg(args, 0, "range") {
        Ok(n) => n,
        Err(e) => return Err(e),
    };
    let end = match require_int_arg(args, 1, "range") {
        Ok(n) => n,
        Err(e) => return Err(e),
    };
    let mut out: Vec<i32> = Vec::new();
    let mut k = start;
    while k < end
        invariant
            start <= k <= end || (k == start && start >= end),
            out@ == Seq::new((k - start) as nat, |i: int| (start + i) as i32),
        decreases end - k,
    {
        out.push(k);
        proof {
            assert(out@ =~= Seq::new((k + 1 - start) as nat, |i: int| (start + i) as i32));
        }
        k = k + 1;
    }
    assert(out@ =~= Seq::new(
        (if start < end {
            end - start
        } else {
            0
        }) as nat,
        |i: int| (start + i) as i32,
    ));
    Ok(Reply::Ints(out))
}

/// The answer of a type test of the first argument, or the message when
/// there is none.
pub open spec fn type_test<T>(args: Seq<Arg<T>>, missing: Seq<char>, holds: spec_fn(ArgKind<T>) -> bool, r: Result<
    Reply<T>,
    String,
>) -> bool {
    if args.len() == 0 {
        fails_with(r, missing)
    } else if holds(args[0].kind) {
        r == Ok::<Reply<T>, String>(Reply::True)
    } else {
        r == Ok::<Reply<T>, String>(Reply::Nil)
    }
}

/// `(list? value)`: whether the value is a list.
pub fn native_is_list<T>(args: &Vec<Arg<T>>) -> (r: Result<Reply<T>, String>)
    ensures
        type_test(args@, "list?: expected 1 argument, got 0"@, |k: ArgKind<T>| k is List, r),
{
    if args.len() == 0 {
        return Err(to_string("list?: expected 1 argument, got 0"));
    }
    match &args[0].kind {
        ArgKind::List(_) => Ok(Reply::True),
        _ => Ok(Reply::Nil),
    }
}

/// `(string? value)`: whether the value is a string.
pub fn native_is_string<T>(args: &Vec<Arg<T>>) -> (r: Result<Reply<T>, String>)
    ensures
        type_test(args@, "string?: expected 1 argument, got 0"@, |k: ArgKind<T>| k is Str, r),
{
    if args.len() == 0 {
        return Err(to_string("string?: expected 1 argument, got 0"));
    }
    match &args[0].kind {
        ArgKind::Str(_) => Ok(Reply::True),
        _ => Ok(Reply::Nil),
    }
}

/// `(number? value)`: whether the value is an integer.
pub fn native_is_number<T>(args: &Vec<Arg<T>>) -> (r: Result<Reply<T>, String>)
    ensures
        type_test(args@, "number?: expected 1 argument, got 0"@, |k: ArgKind<T>| k is Int, r),
{
    if args.len() == 0 {
        return Err(to_string("number?: expected 1 argument, got 0"));
    }
    match &args[0].kind {
        ArgKind::Int(_) => Ok(Reply::True),
        _ => Ok(Reply::Nil),
    }
}

/// `(nil? value)`: whether the value is the empty list.
pub fn native_is_nil<T>(args: &Vec<Arg<T>>) -> (r: Result<Reply<T>, String>)
    ensures
        type_test(args@, "nil?: expected 1 argument, got 0"@, |k: ArgKind<T>| k matches ArgKind::List(v) && v@.len() == 0, r),
{
    if args.len() == 0 {
        return Err(to_string("nil?: expected 1 argument, got 0"));
    }
    match &args[0].kind {
        ArgKind::List(v) => if v.len() == 0 {
            Ok(Reply::True)
        } else {
            Ok(Reply::Nil)
        },
        _ => Ok(Reply::Nil),
    }
}


/// Whether calling `call` on `x` can succeed.
pub open spec fn succeeds_on<T, F: Fn(&T) -> Result<T, String>>(call: F, x: &T) -> bool {
    exists|o: T| call.ensures((x,), Ok::<T, String>(o))
}

/// `(map fn list)`: the list of what calling the function on each item
/// gives, or the error of the first call that fails (every call before it
/// succeeded). `call` calls the function on one item.
pub fn native_map<T, F: Fn(&T) -> Result<T, String>>(args: Vec<Arg<T>>, call: F) -> (r: Result<Reply<T>, String>)
    requires
        forall|x: &T| call.requires((x,)),
    ensures
        args@.len() == 0 ==> fails_with(r, "map: expected 2 arguments (fn, list), got 0"@),
        args@.len() > 0 ==> match required_list(args@, 1, "map"@) {
            Err(m) => fails_with(r, m),
            Ok(v) => match r {
                Ok(Reply::List(out)) => out@.len() == v.len() && forall|i: int|
                    0 <= i < v.len() ==> call.ensures((&v[i],), Ok::<T, String>(#[trigger] out@[i])),
                Err(e) => exists|k: int|
                    #![trigger v[k]]
                    0 <= k < v.len() && call.ensures((&v[k],), Err::<T, String>(e)) && forall|j: int|
                        #![trigger v[j]]
                        0 <= j < k ==> succeeds_on(call, &v[j]),
                _ => false,
            },
        },
{
    if args.len() == 0 {
        return Err(to_string("map: expected 2 arguments (fn, list), got 0"));
    }
    match require_list_arg(&args, 1, "map") {
        Err(e) => return Err(e),
        Ok(_) => {},
    }
    let mut owned = args;
    let items = take_list(&mut owned, 1);
    let mut out: Vec<T> = Vec::new();
    let mut i: usize = 0;
    while i < items.len()
        invariant
            forall|x: &T| call.requires((x,)),
            args@.len() > 0,
            required_list(args@, 1, "map"@) == Ok::<Seq<T>, Seq<char>>(items@),
            i <= items@.len(),
            out@.len() == i,
            forall|j: int| 0 <= j < i ==> call.ensures((&items@[j],), Ok::<T, String>(#[trigger] out@[j])),
        decreases items@.len() - i,
    {
        let res = call(&items[i]);
        match res {
            Ok(x) => out.push(x),
            Err(e) => {
                assert(call.ensures((&items@[i as int],), Err::<T, String>(e)));
                assert forall|j: int| #![trigger items@[j]] 0 <= j < i implies succeeds_on(call, &items@[j]) by {
                    assert(call.ensures((&items@[j],), Ok::<T, String>(out@[j])));
                }
                assert(exists|k: int|
                    #![trigger items@[k]]
                    0 <= k < items@.len() && call.ensures((&items@[k],), Err::<T, String>(e)) && forall|j: int|
                        #![trigger items@[j]]
                        0 <= j < k ==> succeeds_on(call, &items@[j]));
                assert(required_list(args@, 1, "map"@)->Ok_0 == items@);
                return Err(e);
            },
        }
        i = i + 1;
    }
    Ok(Reply::List(out))
}

/// The items of `v` whose flag is set, in order.
pub open spec fn kept<T>(v: Seq<T>, flags: Seq<bool>) -> Seq<T>
    decreases v.len(),
{
    if v.len() == 0 {
        Seq::empty()
    } else if flags[v.len() - 1] {
        kept(v.drop_last(), flags).push(v.last())
    } else {
        kept(v.drop_last(), flags)
    }
}

/// `(filter fn list)`: the items for which the function gives a true value,
/// or the first error of a call. `call` calls the function on one item and
/// tells whether the result is true.
pub fn native_filter<T, F: Fn(&T) -> Result<bool, String>>(args: Vec<Arg<T>>, call: F) -> (r: Result<Reply<T>, String>)
    requires
        forall|x: &T| call.requires((x,)),
    ensures
        args@.len() == 0 ==> fails_with(r, "filter: expected 2 arguments (fn, list), got 0"@),
        args@.len() > 0 ==> match required_list(args@, 1, "filter"@) {
            Err(m) => fails_with(r, m),
            Ok(v) => match r {
                Ok(Reply::List(out)) => exists|flags: Seq<bool>|
                    flags.len() == v.len() && (forall|i: int|
                        0 <= i < v.len() ==> call.ensures((&v[i],), Ok::<bool, String>(#[trigger] flags[i])))
                        && out@ == kept(v, flags),
                Err(e) => exists|k: int| #![trigger v[k]] 0 <= k < v.len() && call.ensures((&v[k],), Err::<bool, String>(e)),
                _ => false,
            },
        },
{
    if args.len() == 0 {
        return Err(to_string("filter: expected 2 arguments (fn, list), got 0"));
    }
    match require_list_arg(&args, 1, "filter") {
        Err(e) => return Err(e),
        Ok(_) => {},
    }
    let mut owned = args;
    let mut items = take_list(&mut owned, 1);
    let ghost src = items@;
    let n = items.len();
    let ghost mut flags: Seq<bool> = Seq::empty();
    let mut out: Vec<T> = Vec::new();
    let mut k: usize = 0;
    while items.len() > 0
        invariant
            forall|x: &T| call.requires((x,)),
            args@.len() > 0,
            required_list(args@, 1, "filter"@) == Ok::<Seq<T>, Seq<char>>(src),
            k + items@.len() == src.len(),
            src.len() == n,
            items@ == src.subrange(k as int, src.len() as int),
            flags.len() == k,
            forall|i: int| 0 <= i < k ==> call.ensures((&src[i],), Ok::<bool, String>(#[trigger] flags[i])),
            out@ == kept(src.subrange(0, k as int), flags),
        decreases items@.len(),
    {
        let x = items.remove(0);
        assert(x == src[k as int]);
        let res = call(&x);
        match res {
            Ok(keep) => {
                proof {
                    let old_flags = flags;
                    flags = flags.push(keep);
                    assert(src.subrange(0, k + 1).drop_last() =~= src.subrange(0, k as int));
                    lemma_kept_prefix(src.subrange(0, k as int), old_flags, flags);
                    assert(flags[k as int] == keep);
                }
                if keep {
                    out.push(x);
                }
                assert(src.subrange(0, k + 1).last() == src[k as int]);
                assert(out@ == kept(src.subrange(0, k + 1), flags));
            },
            Err(e) => {
                assert(call.ensures((&src[k as int],), Err::<bool, String>(e)));
                assert(exists|j: int| #![trigger src[j]] 0 <= j < src.len() && call.ensures((&src[j],), Err::<bool, String>(e)));
                assert(required_list(args@, 1, "filter"@)->Ok_0 == src);
                return Err(e);
            },
        }
        k = k + 1;
    }
    assert(src.subrange(0, k as int) =~= src);
    Ok(Reply::List(out))
}

/// `kept` reads only the flags of the items it is given.
proof fn lemma_kept_prefix<T>(v: Seq<T>, f: Seq<bool>, g: Seq<bool>)
    requires
        f.len() >= v.len(),
        g.len() >= v.len(),
        forall|i: int| 0 <= i < v.len() ==> f[i] == g[i],
    ensures
        kept(v, f) == kept(v, g),
    decreases v.len(),
{
    if v.len() > 0 {
        lemma_kept_prefix(v.drop_last(), f, g);
    }
}

/// `(reduce fn init list)`: the accumulator after calling the function on
/// it and each item in turn, from `init`; or the first error of a call.
/// `call` calls the function on the accumulator and one item.
/// What a left fold of `v` from `init` through `call` may give: the final
/// accumulator of a chain of successful calls, or the error of one call.
pub open spec fn folded<T, F: Fn(T, &T) -> Result<T, String>>(call: F, init: T, v: Seq<T>, r: Result<T, String>) -> bool {
    match r {
        Ok(acc) => exists|accs: Seq<T>|
            accs.len() == v.len() + 1 && accs[0] == init && accs[v.len() as int] == acc && forall|i: int|
                0 <= i < v.len() ==> call.ensures((#[trigger] accs[i], &v[i]), Ok::<T, String>(accs[i + 1])),
        Err(e) => exists|k: int, a: T| #![trigger call.ensures((a, &v[k]), Err::<T, String>(e))] 0 <= k < v.len()
            && call.ensures((a, &v[k]), Err::<T, String>(e)),
    }
}

fn fold_items<T, F: Fn(T, &T) -> Result<T, String>>(init: T, items: &Vec<T>, call: &F) -> (r: Result<T, String>)
    requires
        forall|a: T, x: &T| call.requires((a, x)),
    ensures
        folded(*call, init, items@, r),
{
    let mut acc = init;
    let ghost mut accs: Seq<T> = seq![acc];
    let mut i: usize = 0;
    while i < items.len()
        invariant
            forall|a: T, x: &T| call.requires((a, x)),
            i <= items@.len(),
            accs.len() == i + 1,
            accs[0] == init,
            accs[i as int] == acc,
            forall|j: int| 0 <= j < i ==> call.ensures((#[trigger] accs[j], &items@[j]), Ok::<T, String>(accs[j + 1])),
        decreases items@.len() - i,
    {
        let ghost before = acc;
        let res = call(acc, &items[i]);
        match res {
            Ok(next) => {
                acc = next;
                proof {
                    accs = accs.push(acc);
                    assert(accs[i as int] == before);
                }
            },
            Err(e) => {
                assert(call.ensures((before, &items@[i as int]), Err::<T, String>(e)));
                return Err(e);
            },
        }
        i = i + 1;
    }
    Ok(acc)
}

/// `(reduce fn init list)`: the accumulator after calling the function on
/// it and each item in turn, from `init`; or the first error of a call.
/// `call` calls the function on the accumulator and one item.
pub fn native_reduce<T, F: Fn(T, &T) -> Result<T, String>>(args: Vec<Arg<T>>, call: F) -> (r: Result<Reply<T>, String>)
    requires
        forall|a: T, x: &T| call.requires((a, x)),
    ensures
        args@.len() == 0 ==> fails_with(r, "reduce: expected 3 arguments (fn, init, list), got 0"@),
        args@.len() == 1 ==> fails_with(r, "reduce: expected 3 arguments (fn, init, list), got 1"@),
        args@.len() > 1 ==> match required_list(args@, 2, "reduce"@) {
            Err(m) => fails_with(r, m),
            Ok(v) => match r {
                Ok(Reply::Item(acc)) => folded(call, args@[1].value, v, Ok(acc)),
                Err(e) => folded(call, args@[1].value, v, Err(e)),
                _ => false,
            },
        },
{
    if args.len() == 0 {
        return Err(to_string("reduce: expected 3 arguments (fn, init, list), got 0"));
    }
    if args.len() == 1 {
        return Err(to_string("reduce: expected 3 arguments (fn, init, list), got 1"));
    }
    match require_list_arg(&args, 2, "reduce") {
        Err(e) => return Err(e),
        Ok(_) => {},
    }
    let mut owned = args;
    let items = take_list(&mut owned, 2);
    let init = owned.remove(1);
    match fold_items(init.value, &items, &call) {
        Ok(acc) => Ok(Reply::Item(acc)),
        Err(e) => Err(e),
    }
}

/// `(for-each fn list)`: calls the function on each item in turn; nil, or
/// the first error of a call.
pub fn native_for_each<T, F: Fn(&T) -> Result<(), String>>(args: Vec<Arg<T>>, call: F) -> (r: Result<Reply<T>, String>)
    requires
        forall|x: &T| call.requires((x,)),
    ensures
        args@.len() == 0 ==> fails_with(r, "for-each: expected 2 arguments (fn, list), got 0"@),
        args@.len() > 0 ==> match required_list(args@, 1, "for-each"@) {
            Err(m) => fails_with(r, m),
            Ok(v) => match r {
                Ok(Reply::Nil) => forall|i: int| 0 <= i < v.len() ==> call.ensures((&v[i],), Ok::<(), String>(())),
                Err(e) => exists|k: int| #![trigger v[k]] 0 <= k < v.len() && call.ensures((&v[k],), Err::<(), String>(e)),
                _ => false,
            },
        },
{
    if args.len() == 0 {
        return Err(to_string("for-each: expected 2 arguments (fn, list), got 0"));
    }
    match require_list_arg(&args, 1, "for-each") {
        Err(e) => return Err(e),
        Ok(_) => {},
    }
    let mut owned = args;
    let items = take_list(&mut owned, 1);
    let mut i: usize = 0;
    while i < items.len()
        invariant
            forall|x: &T| call.requires((x,)),
            args@.len() > 0,
            required_list(args@, 1, "for-each"@) == Ok::<Seq<T>, Seq<char>>(items@),
            i <= items@.len(),
            forall|j: int| 0 <= j < i ==> call.ensures((&items@[j],), Ok::<(), String>(())),
        decreases items@.len() - i,
    {
        let res = call(&items[i]);
        match res {
            Ok(u) => {
                assert(u == ());
                assert(call.ensures((&items@[i as int],), Ok::<(), String>(())));
            },
            Err(e) => {
                assert(call.ensures((&items@[i as int],), Err::<(), String>(e)));
                assert(exists|k: int| #![trigger items@[k]] 0 <= k < items@.len() && call.ensures((&items@[k],), Err::<(), String>(e)));
                assert(required_list(args@, 1, "for-each"@)->Ok_0 == items@);
                return Err(e);
            },
        }
        i = i + 1;
    }
    Ok(Reply::Nil)
}
} // verus!
