//! Shell-style expansion of `~` and `$VARS`.

use vstd::prelude::*;

use crate::text;

verus! {

/// A variable of the environment.
#[derive(Debug)]
pub struct Var {
    pub name: String,
    pub value: String,
}

/// The variables as names and values.
pub open spec fn bindings(vars: Seq<Var>) -> Seq<(Seq<char>, Seq<char>)> {
    Seq::new(vars.len(), |i: int| (vars[i].name@, vars[i].value@))
}

/// `path` with a leading `~` replaced by the home directory, where `~` stands alone or
/// before a slash and the home directory is known.
pub open spec fn tilde_expanded(path: Seq<char>, home: Option<Seq<char>>) -> Seq<char> {
    if path.len() > 0 && path[0] == '~' && (path.len() == 1 || path[1] == '/') && home is Some {
        home.unwrap() + path.skip(1)
    } else {
        path
    }
}

/// What `shellexpand::full_with_context` makes of a text: `None` where a variable that it
/// names is not set.
pub uninterp spec fn shell_expanded(
    pattern: Seq<char>,
    home: Option<Seq<char>>,
    vars: Seq<(Seq<char>, Seq<char>)>,
) -> Option<Seq<char>>;

/// Calls `shellexpand::tilde_with_context`, which replaces a `~` that stands alone or before
/// a slash at the front by the home directory, and hands anything else back unchanged. (Built
/// for Windows it would take a backslash for the slash too; paths here are those of Unix.)
#[verifier::external_body]
fn tilde(path: &str, home: &Option<String>) -> (r: String)
    ensures
        r@ == tilde_expanded(path@, text::opt_text(*home)),
{
    shellexpand::tilde_with_context(path, || home.as_ref()).into_owned()
}

/// Calls `shellexpand::full_with_context`, with `lookup_var` for the variables. The result
/// depends on the text, the home directory and the variables alone; of a text without `$`
/// only a leading `~` is replaced.
#[verifier::external_body]
fn full(pattern: &str, home: &Option<String>, vars: &Vec<Var>) -> (r: Option<String>)
    ensures
        text::opt_text(r) == shell_expanded(pattern@, text::opt_text(*home), bindings(vars@)),
        !pattern@.contains('$') ==> text::opt_text(r) == Some(
            tilde_expanded(pattern@, text::opt_text(*home)),
        ),
{
    shellexpand::full_with_context(pattern, || home.as_ref(), |name: &str| lookup_var(vars, name))
        .ok()
        .map(|s| s.into_owned())
}

/// The value of the first variable with that name.
pub open spec fn value_of(vars: Seq<(Seq<char>, Seq<char>)>, name: Seq<char>) -> Option<Seq<char>>
    decreases vars.len(),
{
    if vars.len() == 0 {
        None
    } else if vars[0].0 == name {
        Some(vars[0].1)
    } else {
        value_of(vars.skip(1), name)
    }
}

/// The value of the variable `name`; an error where it is not set.
pub fn lookup_var(vars: &Vec<Var>, name: &str) -> (r: Result<Option<String>, ()>)
    ensures
        match value_of(bindings(vars@), name@) {
            Some(v) => r matches Ok(Some(s)) && s@ == v,
            None => r is Err,
        },
{
    let mut i: usize = 0;
    assert(bindings(vars@).skip(0) =~= bindings(vars@));
    while i < vars.len()
        invariant
            i <= vars@.len(),
            value_of(bindings(vars@), name@) == value_of(bindings(vars@).skip(i as int), name@),
        decreases vars@.len() - i,
    {
        let ghost rest = bindings(vars@).skip(i as int);
        proof {
            assert(rest[0] == (vars@[i as int].name@, vars@[i as int].value@));
            assert(rest.skip(1) =~= bindings(vars@).skip(i + 1));
        }
        if text::same_text(vars[i].name.as_str(), name) {
            return Ok(Some(vars[i].value.clone()));
        }
        i += 1;
    }
    Err(())
}

/// Replaces a leading `~` by the home directory.
pub fn expand_tilde(path: &str, home: &Option<String>) -> (r: String)
    ensures
        r@ == tilde_expanded(path@, text::opt_text(*home)),
{
    tilde(path, home)
}

/// `pattern` with `~` and `$VARS` expanded; where that fails, `pattern` as it is.
pub open spec fn expanded(
    pattern: Seq<char>,
    home: Option<Seq<char>>,
    vars: Seq<(Seq<char>, Seq<char>)>,
) -> Seq<char> {
    expanded_or(pattern, shell_expanded(pattern, home, vars))
}

/// The expansion, or the pattern itself where there is none.
pub open spec fn expanded_or(pattern: Seq<char>, expansion: Option<Seq<char>>) -> Seq<char> {
    match expansion {
        Some(s) => s,
        None => pattern,
    }
}

/// The expansion, or the pattern itself where there is none.
pub fn expansion_or(pattern: &str, expansion: Option<String>) -> (r: String)
    ensures
        r@ == expanded_or(pattern@, text::opt_text(expansion)),
{
    match expansion {
        Some(s) => s,
        None => pattern.to_owned(),
    }
}

/// Expands `~` and `$VARS` in `pattern`, which stays as it is where a variable is not set.
pub fn expand_paths(pattern: &str, home: &Option<String>, vars: &Vec<Var>) -> (r: String)
    ensures
        r@ == expanded(pattern@, text::opt_text(*home), bindings(vars@)),
        !pattern@.contains('$') ==> r@ == tilde_expanded(pattern@, text::opt_text(*home)),
{
    let e = full(pattern, home, vars);
    expansion_or(pattern, e)
}

} // verus!
