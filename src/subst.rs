//! Placeholder substitution: `${name}` is replaced by the context's value for
//! `name`, or by `?` when the context has none. One pass, left to right; the
//! inserted text is never scanned again.
use vstd::prelude::*;

verus! {

/// A source of values for placeholder names.
pub trait Context {
    /// The value this context gives for `key`, if any.
    spec fn lookup(&self, key: Seq<char>) -> Option<Seq<char>>;

    fn get_value_from_key(&self, key: &str) -> (r: Option<String>)
        ensures
            r is None <==> self.lookup(key@) is None,
            r is Some ==> r->0@ == self.lookup(key@)->0,
    ;
}

/// The sentinel written for a placeholder whose name the context lacks.
pub open spec fn unresolved() -> Seq<char> {
    seq!['?']
}

/// The first index at or after `k` that holds `}`, or `s.len()` if none does.
pub open spec fn find_close(s: Seq<char>, k: int) -> int
    decreases s.len() - k,
{
    if k >= s.len() {
        s.len() as int
    } else if s[k] == '}' {
        k
    } else {
        find_close(s, k + 1)
    }
}

/// Whether a complete placeholder `${...}` starts at index `i`.
pub open spec fn placeholder_at(s: Seq<char>, i: int) -> bool {
    &&& 0 <= i
    &&& i + 1 < s.len()
    &&& s[i] == '$'
    &&& s[i + 1] == '{'
    &&& find_close(s, i + 2) < s.len()
}

/// What a placeholder's name is replaced by.
pub open spec fn replacement(v: Option<Seq<char>>) -> Seq<char> {
    match v {
        Some(x) => x,
        None => unresolved(),
    }
}

/// The substitution of `s` from index `i` on, with `lk` as the lookup.
pub open spec fn subst_from(s: Seq<char>, i: int, lk: spec_fn(Seq<char>) -> Option<Seq<char>>) -> Seq<char>
    decreases s.len() - i,
    via subst_from_decreases
{
    if i < 0 || i >= s.len() {
        Seq::empty()
    } else if placeholder_at(s, i) {
        let j = find_close(s, i + 2);
        replacement(lk(s.subrange(i + 2, j))) + subst_from(s, j + 1, lk)
    } else {
        seq![s[i]] + subst_from(s, i + 1, lk)
    }
}

#[via_fn]
proof fn subst_from_decreases(s: Seq<char>, i: int, lk: spec_fn(Seq<char>) -> Option<Seq<char>>) {
    if 0 <= i < s.len() && placeholder_at(s, i) {
        lemma_find_close_bounds(s, i + 2);
    }
}

/// The whole substitution of `s`.
pub open spec fn subst(s: Seq<char>, lk: spec_fn(Seq<char>) -> Option<Seq<char>>) -> Seq<char> {
    subst_from(s, 0, lk)
}

/// Whether `s` holds no complete placeholder.
pub open spec fn no_placeholder(s: Seq<char>) -> bool {
    forall|i: int| 0 <= i < s.len() ==> !placeholder_at(s, i)
}

proof fn lemma_find_close_bounds(s: Seq<char>, k: int)
    requires
        0 <= k,
    ensures
        k <= find_close(s, k) <= s.len() || (k > s.len() && find_close(s, k) == s.len()),
        find_close(s, k) < s.len() ==> s[find_close(s, k)] == '}',
    decreases s.len() - k,
{
    if k < s.len() && s[k] != '}' {
        lemma_find_close_bounds(s, k + 1);
    }
}

proof fn lemma_subst_identity_from(s: Seq<char>, i: int, lk: spec_fn(Seq<char>) -> Option<Seq<char>>)
    requires
        0 <= i <= s.len(),
        no_placeholder(s),
    ensures
        subst_from(s, i, lk) == s.subrange(i, s.len() as int),
    decreases s.len() - i,
{
    if i < s.len() {
        lemma_subst_identity_from(s, i + 1, lk);
        assert(seq![s[i]] + s.subrange(i + 1, s.len() as int) =~= s.subrange(i, s.len() as int));
    } else {
        assert(s.subrange(i, s.len() as int) =~= Seq::<char>::empty());
    }
}

/// A string with no placeholder comes out of substitution unchanged, whatever
/// the context; so substituting it twice gives what substituting it once gives.
pub proof fn lemma_subst_no_placeholder(s: Seq<char>, lk: spec_fn(Seq<char>) -> Option<Seq<char>>)
    requires
        no_placeholder(s),
    ensures
        subst(s, lk) == s,
        subst(subst(s, lk), lk) == subst(s, lk),
{
    lemma_subst_identity_from(s, 0, lk);
    assert(s.subrange(0, s.len() as int) =~= s);
}

/// Replaces every placeholder of `s` by the context's value for its name, or
/// by `?` where the context has none.
pub fn replace_all_from<C: Context>(s: &str, context: &C) -> (r: String)
    ensures
        r@ == subst(s@, |k: Seq<char>| context.lookup(k)),
{
    let ghost lk = |k: Seq<char>| context.lookup(k);
    let n = s.unicode_len();
    let mut out = String::new();
    let mut i: usize = 0;
    while i < n
        invariant
            n == s@.len(),
            i <= n,
            lk == (|k: Seq<char>| context.lookup(k)),
            out@ + subst_from(s@, i as int, lk) == subst(s@, lk),
        decreases n - i,
    {
        let mut done = false;
        if i + 1 < n && s.get_char(i) == '$' && s.get_char(i + 1) == '{' {
            let mut j: usize = i + 2;
            while j < n && s.get_char(j) != '}'
                invariant
                    n == s@.len(),
                    i + 2 <= j <= n,
                    find_close(s@, i + 2) == find_close(s@, j as int),
                decreases n - j,
            {
                j = j + 1;
            }
            proof {
                lemma_find_close_bounds(s@, j as int);
            }
            if j < n {
                let name = s.substring_char(i + 2, j);
                let v = context.get_value_from_key(name);
                proof {
                    assert(placeholder_at(s@, i as int));
                }
                match v {
                    Some(x) => {
                        out.append(x.as_str());
                    },
                    None => {
                        out.append("?");
                        proof {
                            reveal_strlit("?");
                            assert("?"@ =~= unresolved());
                        }
                    },
                }
                proof {
                    assert(out@ + subst_from(s@, j + 1, lk) =~= subst(s@, lk));
                }
                i = j + 1;
                done = true;
            }
        }
        if !done {
            proof {
                assert(!placeholder_at(s@, i as int));
            }
            out.append(s.substring_char(i, i + 1));
            proof {
                assert(s@.subrange(i as int, i + 1) =~= seq![s@[i as int]]);
                assert(out@ + subst_from(s@, i + 1, lk) =~= subst(s@, lk));
            }
            i = i + 1;
        }
    }
    out
}

} // verus!
