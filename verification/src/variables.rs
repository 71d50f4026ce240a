//! Variable interpolation for grammar patterns: `{{name}}` placeholders are
//! replaced by the named variable's text, pass after pass, until the result
//! is stable. A placeholder naming no variable, or a set of definitions
//! that never converges (a cycle), makes interpolation fail.

use vstd::prelude::*;

verus! {

/// The value of the first variable binding named `name`, scanning from `i`.
pub open spec fn var_value(vars: Seq<(Vec<u8>, Vec<u8>)>, name: Seq<u8>, i: int) -> Option<Seq<u8>>
    decreases vars.len() - i,
{
    if i < 0 || i >= vars.len() {
        None
    } else if vars[i].0@ == name {
        Some(vars[i].1@)
    } else {
        var_value(vars, name, i + 1)
    }
}

/// The first index at or after `k` holding a closing brace, or the length.
pub open spec fn close_brace(s: Seq<u8>, k: int) -> int
    decreases s.len() - k,
{
    if k < 0 || k >= s.len() {
        s.len() as int
    } else if s[k] == 125u8 {
        k
    } else {
        close_brace(s, k + 1)
    }
}

/// Whether a `{{name}}` placeholder starts at `i`: two opening braces, then
/// content free of closing braces, then two closing braces.
pub open spec fn placeholder_at(s: Seq<u8>, i: int) -> bool {
    let j = close_brace(s, i + 2);
    &&& 0 <= i
    &&& i + 1 < s.len()
    &&& s[i] == 123u8
    &&& s[i + 1] == 123u8
    &&& i + 2 <= j
    &&& j + 1 < s.len()
    &&& s[j + 1] == 125u8
}

/// One left-to-right substitution pass over `s` from position `i`: the
/// rewritten suffix and whether anything was replaced, or `None` when a
/// placeholder names no variable.
pub open spec fn pass_from(s: Seq<u8>, vars: Seq<(Vec<u8>, Vec<u8>)>, i: int) -> Option<
    (Seq<u8>, bool),
>
    decreases s.len() - i,
{
    if i < 0 || i >= s.len() {
        Some((Seq::empty(), false))
    } else if placeholder_at(s, i) {
        let j = close_brace(s, i + 2);
        match var_value(vars, s.subrange(i + 2, j), 0) {
            None => None,
            Some(v) => match pass_from(s, vars, j + 2) {
                None => None,
                Some(rest) => Some((v + rest.0, true)),
            },
        }
    } else {
        match pass_from(s, vars, i + 1) {
            None => None,
            Some(rest) => Some((seq![s[i]] + rest.0, rest.1)),
        }
    }
}

/// Repeated substitution passes, at most `fuel + 1` of them; `None` when a
/// pass fails or the text is still changing once the fuel is spent.
pub open spec fn interp_rec(s: Seq<u8>, vars: Seq<(Vec<u8>, Vec<u8>)>, fuel: nat) -> Option<Seq<u8>>
    decreases fuel,
{
    match pass_from(s, vars, 0) {
        None => None,
        Some(r) => if !r.1 {
            Some(r.0)
        } else if fuel == 0 {
            None
        } else {
            interp_rec(r.0, vars, (fuel - 1) as nat)
        },
    }
}

/// The fully interpolated pattern: changing passes bounded by the number of
/// variable bindings, which any acyclic definition chain stays within.
pub open spec fn interp(s: Seq<u8>, vars: Seq<(Vec<u8>, Vec<u8>)>) -> Option<Seq<u8>> {
    interp_rec(s, vars, vars.len())
}

/// Relates a partially built pass to the whole one: processing resumed at
/// `i` with `out` already emitted agrees with the pass started at 0.
pub open spec fn pass_state_ok(
    s: Seq<u8>,
    vars: Seq<(Vec<u8>, Vec<u8>)>,
    i: int,
    out: Seq<u8>,
    changed: bool,
) -> bool {
    match pass_from(s, vars, i) {
        None => pass_from(s, vars, 0) is None,
        Some(rest) => pass_from(s, vars, 0) == Some((out + rest.0, changed || rest.1)),
    }
}

/// Extending a subrange by its next element.
proof fn lemma_subrange_split(s: Seq<u8>, a: int, k: int)
    requires
        0 <= a,
        a + 1 <= k,
        k <= s.len(),
    ensures
        s.subrange(a, k - 1) + seq![s[k - 1]] == s.subrange(a, k),
{
    assert(s.subrange(a, k - 1) + seq![s[k - 1]] =~= s.subrange(a, k));
}

pub fn bytes_eq(a: &Vec<u8>, b: &Vec<u8>) -> (r: bool)
    ensures
        r == (a@ == b@),
{
    if a.len() != b.len() {
        assert(a@ != b@) by {
            assert(a@.len() != b@.len());
        }
        return false;
    }
    let n: usize = a.len();
    let mut i: usize = 0;
    while i < n
        invariant
            n == a@.len() == b@.len(),
            i <= n,
            forall|k: int| 0 <= k < i ==> a@[k] == b@[k],
        decreases n - i,
    {
        if a[i] != b[i] {
            return false;
        }
        i = i + 1;
    }
    assert(a@ =~= b@);
    true
}

/// The index of the first binding for `name`, if any.
fn find_var(vars: &Vec<(Vec<u8>, Vec<u8>)>, name: &Vec<u8>) -> (r: Option<usize>)
    ensures
        match r {
            None => var_value(vars@, name@, 0) is None,
            Some(k) => k < vars@.len() && var_value(vars@, name@, 0) == Some(vars@[k as int].1@),
        },
{
    let n: usize = vars.len();
    let mut i: usize = 0;
    while i < n
        invariant
            n == vars@.len(),
            i <= n,
            var_value(vars@, name@, 0) == var_value(vars@, name@, i as int),
        decreases n - i,
    {
        if bytes_eq(&vars[i].0, name) {
            return Some(i);
        }
        i = i + 1;
    }
    None
}

pub fn append_bytes(out: &mut Vec<u8>, add: &Vec<u8>)
    ensures
        final(out)@ == old(out)@ + add@,
{
    let n: usize = add.len();
    let mut i: usize = 0;
    assert(out@ + add@.subrange(0, 0) =~= out@);
    while i < n
        invariant
            n == add@.len(),
            i <= n,
            out@ == old(out)@ + add@.subrange(0, i as int),
        decreases n - i,
    {
        let ghost prev = out@;
        out.push(add[i]);
        i = i + 1;
        assert(out@ =~= old(out)@ + add@.subrange(0, i as int)) by {
            assert(add@.subrange(0, i - 1) + seq![add@[i - 1]] =~= add@.subrange(0, i as int));
            assert(out@ == prev + seq![add@[i - 1]]);
        }
    }
    assert(add@.subrange(0, n as int) =~= add@);
}

pub fn dup_bytes(v: &Vec<u8>) -> (r: Vec<u8>)
    ensures
        r@ == v@,
{
    let mut out: Vec<u8> = Vec::new();
    append_bytes(&mut out, v);
    assert(Seq::<u8>::empty() + v@ =~= v@);
    out
}

/// One substitution pass over the whole of `s`.
fn subst_pass(s: &Vec<u8>, vars: &Vec<(Vec<u8>, Vec<u8>)>) -> (r: Option<(Vec<u8>, bool)>)
    ensures
        match r {
            None => pass_from(s@, vars@, 0) is None,
            Some(p) => pass_from(s@, vars@, 0) == Some((p.0@, p.1)),
        },
{
    let n: usize = s.len();
    let mut i: usize = 0;
    let mut out: Vec<u8> = Vec::new();
    let mut changed: bool = false;
    assert(out@ + pass_from(s@, vars@, 0)->Some_0.0 =~= pass_from(s@, vars@, 0)->Some_0.0) by {
        assert(out@.len() == 0);
    }
    while i < n
        invariant
            n == s@.len(),
            i <= n,
            pass_state_ok(s@, vars@, i as int, out@, changed),
        decreases n - i,
    {
        let ghost gi = i as int;
        let ghost out0 = out@;
        let ghost changed0 = changed;
        let mut is_ph: bool = false;
        let mut j: usize = i;
        if i + 1 < n && s[i] == 123u8 && s[i + 1] == 123u8 {
            j = i + 2;
            while j < n && s[j] != 125u8
                invariant
                    n == s@.len(),
                    gi + 2 <= j <= n,
                    close_brace(s@, gi + 2) == close_brace(s@, j as int),
                decreases n - j,
            {
                proof {
                    assert(close_brace(s@, j as int) == close_brace(s@, j + 1));
                }
                j = j + 1;
            }
            assert(close_brace(s@, j as int) == j as int || close_brace(s@, j as int)
                == n as int);
            if j < n && j + 1 < n && s[j + 1] == 125u8 {
                is_ph = true;
            }
        }
        assert(is_ph == placeholder_at(s@, gi));
        if is_ph {
            assert(j == close_brace(s@, gi + 2));
            let mut name: Vec<u8> = Vec::new();
            let mut k: usize = i + 2;
            assert(name@ =~= s@.subrange(gi + 2, gi + 2));
            while k < j
                invariant
                    0 <= gi,
                    gi + 2 <= k <= j <= n,
                    n == s@.len(),
                    name@ == s@.subrange(gi + 2, k as int),
                decreases j - k,
            {
                let ghost prev = name@;
                name.push(s[k]);
                k = k + 1;
                proof {
                    lemma_subrange_split(s@, gi + 2, k as int);
                    assert(name@ == prev + seq![s@[k - 1]]);
                }
            }
            assert(name@ == s@.subrange(gi + 2, j as int));
            match find_var(vars, &name) {
                None => {
                    assert(pass_from(s@, vars@, gi) is None);
                    return None;
                },
                Some(vi) => {
                    append_bytes(&mut out, &vars[vi].1);
                    changed = true;
                    i = j + 2;
                    proof {
                        let rest = pass_from(s@, vars@, gi);
                        let r2 = pass_from(s@, vars@, i as int);
                        if r2 is Some {
                            assert(rest == Some(
                                (vars@[vi as int].1@ + r2->Some_0.0, true),
                            ));
                            assert(out@ + r2->Some_0.0 =~= out0 + rest->Some_0.0);
                        } else {
                            assert(rest is None);
                        }
                    }
                },
            }
        } else {
            out.push(s[i]);
            i = i + 1;
            proof {
                let rest = pass_from(s@, vars@, gi);
                let r2 = pass_from(s@, vars@, i as int);
                if r2 is Some {
                    assert(rest == Some(
                        (seq![s@[gi]] + r2->Some_0.0, r2->Some_0.1),
                    ));
                    assert(out@ + r2->Some_0.0 =~= out0 + rest->Some_0.0);
                } else {
                    assert(rest is None);
                }
            }
        }
    }
    assert(pass_from(s@, vars@, n as int) == Some((Seq::<u8>::empty(), false)));
    assert(out@ + Seq::<u8>::empty() =~= out@);
    Some((out, changed))
}

/// Fully interpolates `s` against the variable table, or reports failure:
/// an unknown variable, or definitions that never stop expanding.
pub fn interpolate(s: &Vec<u8>, vars: &Vec<(Vec<u8>, Vec<u8>)>) -> (r: Option<Vec<u8>>)
    ensures
        match r {
            None => interp(s@, vars@) is None,
            Some(v) => interp(s@, vars@) == Some(v@),
        },
{
    let mut cur: Vec<u8> = dup_bytes(s);
    let mut fuel: usize = vars.len();
    loop
        invariant
            interp(s@, vars@) == interp_rec(cur@, vars@, fuel as nat),
        decreases fuel,
    {
        match subst_pass(&cur, vars) {
            None => {
                return None;
            },
            Some(p) => {
                if !p.1 {
                    return Some(p.0);
                }
                if fuel == 0 {
                    return None;
                }
                fuel = fuel - 1;
                cur = p.0;
            },
        }
    }
}

} // verus!
