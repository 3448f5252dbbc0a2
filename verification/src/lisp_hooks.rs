//! The logic of the Lisp primitives that take callbacks (`define-command`,
//! `add-hook`) and of `dispatch-hook`: checking their arguments, turning hook
//! arguments and callback results into strings, and gathering what a
//! dispatch gives back.
use crate::bridge::{cat2, extract_string_arg, first_string, Arg, ArgKind};
use crate::error::AlfredError;
use crate::lisp_strings::{item_text, join_strings, strings_view};
use crate::text::to_string;
use vstd::prelude::*;

verus! {

/// What a primitive taking a name and a callback reads: the name, or the
/// error message.
pub open spec fn callback_args<T>(args: Seq<Arg<T>>, fn_name: Seq<char>) -> Result<Seq<char>, Seq<char>> {
    match first_string(args, fn_name) {
        Err(m) => Err(m),
        Ok(name) => if args.len() < 2 {
            Err(fn_name + ": expected 2 arguments (name, callback), got 1"@)
        } else if args[1].kind is Callable {
            Ok(name)
        } else {
            Err(fn_name + ": expected callable as second argument, got "@ + args[1].shown@)
        },
    }
}

/// Checks the arguments of `(define-command name callback)` or
/// `(add-hook name callback)`: a string, then something callable.
pub fn check_callback_args<T>(args: &Vec<Arg<T>>, fn_name: &str) -> (r: Result<String, String>)
    ensures
        crate::bridge::text_result(r) == callback_args(args@, fn_name@),
{
    let name = match extract_string_arg(args, fn_name) {
        Ok(t) => t,
        Err(e) => return Err(e),
    };
    if args.len() < 2 {
        return Err(cat2(fn_name, ": expected 2 arguments (name, callback), got 1"));
    }
    match &args[1].kind {
        ArgKind::Callable => Ok(name),
        _ => Err(crate::bridge::cat3(fn_name, ": expected callable as second argument, got ", args[1].shown.as_str())),
    }
}

/// The arguments of `(dispatch-hook name arg ...)` after the name, as
/// strings: a string as it is, anything else as it is printed.
pub fn hook_string_args<T>(args: &Vec<Arg<T>>) -> (r: Vec<String>)
    requires
        args@.len() > 0,
    ensures
        strings_view(r@) == args@.subrange(1, args@.len() as int).map_values(|a: Arg<T>| item_text(a)),
{
    let mut out: Vec<String> = Vec::new();
    let mut i: usize = 1;
    while i < args.len()
        invariant
            1 <= i <= args@.len(),
            out@.len() == i - 1,
            strings_view(out@) == args@.subrange(1, i as int).map_values(|a: Arg<T>| item_text(a)),
        decreases args@.len() - i,
    {
        let ghost before = strings_view(out@);
        let t = match &args[i].kind {
            ArgKind::Str(s) => to_string(s.as_str()),
            _ => to_string(args[i].shown.as_str()),
        };
        assert(t@ == item_text(args@[i as int]));
        out.push(t);
        proof {
            let f = |a: Arg<T>| item_text(a);
            assert(out@[i - 1] == t);
            assert(args@.subrange(1, i + 1).map_values(f) =~= args@.subrange(1, i as int).map_values(f).push(
                item_text(args@[i as int]),
            ));
            assert(strings_view(out@) =~= before.push(t@));
        }
        i = i + 1;
    }
    out
}

/// What a hook callback gives back: the text of its result, or, when the
/// call failed, the error to report.
pub fn hook_callback_reply<T>(outcome: Result<Arg<T>, String>) -> (r: Result<Vec<String>, String>)
    ensures
        match outcome {
            Ok(a) => r matches Ok(v) && strings_view(v@) == seq![item_text(a)],
            Err(m) => r matches Err(e) && e@ == "Hook error: "@ + m@,
        },
{
    match outcome {
        Ok(a) => {
            let t = match &a.kind {
                ArgKind::Str(s) => to_string(s.as_str()),
                _ => to_string(a.shown.as_str()),
            };
            let v = vec![t];
            assert(strings_view(v@) =~= seq![item_text(a)]);
            Ok(v)
        },
        Err(m) => Err(cat2("Hook error: ", m.as_str())),
    }
}

/// The message that the errors of a dispatch leave: none without errors,
/// else the errors joined by "; ".
pub fn hook_errors_message(errors: &Vec<String>) -> (r: Option<String>)
    ensures
        errors@.len() == 0 ==> r is None,
        errors@.len() > 0 ==> (r matches Some(m) && m@ == crate::lisp_strings::join_with(strings_view(errors@), "; "@)),
{
    if errors.len() == 0 {
        None
    } else {
        Some(join_strings(errors, "; "))
    }
}

/// All the strings of all the results, in order.
pub open spec fn flattened(results: Seq<Seq<Seq<char>>>) -> Seq<Seq<char>>
    decreases results.len(),
{
    if results.len() == 0 {
        Seq::empty()
    } else {
        flattened(results.drop_last()) + results.last()
    }
}

/// The strings of each result.
pub open spec fn results_view(v: Seq<Vec<String>>) -> Seq<Seq<Seq<char>>> {
    v.map_values(|r: Vec<String>| strings_view(r@))
}

/// The results of the callbacks of a dispatch, one list of all their strings.
pub fn flatten_results(results: Vec<Vec<String>>) -> (r: Vec<String>)
    ensures
        strings_view(r@) == flattened(results_view(results@)),
{
    let ghost src = results@;
    let mut rest = results;
    let mut out: Vec<String> = Vec::new();
    let mut k: usize = 0;
    let n = rest.len();
    while rest.len() > 0
        invariant
            k + rest@.len() == src.len(),
            n == src.len(),
            rest@ == src.subrange(k as int, src.len() as int),
            strings_view(out@) == flattened(results_view(src.subrange(0, k as int))),
        decreases rest@.len(),
    {
        let mut one = rest.remove(0);
        assert(one@ == src[k as int]@);
        let ghost before = strings_view(out@);
        let ghost add = strings_view(one@);
        out.append(&mut one);
        proof {
            assert(results_view(src.subrange(0, k + 1)).drop_last() =~= results_view(src.subrange(0, k as int)));
            assert(results_view(src.subrange(0, k + 1)).last() == add);
            assert(strings_view(out@) =~= before + add);
        }
        k = k + 1;
    }
    assert(src.subrange(0, k as int) =~= src);
    out
}

/// The error of a Lisp command callback that failed, as the editor reports it.
pub fn callback_error(message: &str) -> (e: AlfredError)
    ensures
        e matches AlfredError::CommandNotFound { name } && name@ == "lisp callback error: "@ + message@,
{
    AlfredError::CommandNotFound { name: cat2("lisp callback error: ", message) }
}

} // verus!
