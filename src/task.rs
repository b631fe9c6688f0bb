//! What a shell task reads from its properties, and the pieces of its run that
//! are plain computation: splitting the command into words and building the
//! capture diffs.
use vstd::prelude::*;
use crate::model::PropM;
use crate::context::{ContextDiff, VarsModel, diffs_view, strings_view};

verus! {

broadcast use vstd::std_specs::vec::group_vec_axioms;

/// The property holding the command (`task` is accepted as well).
pub const KWD_TASK: &'static str = "run";
/// The alternative name of the command property.
pub const KWD_TASK_ALIAS: &'static str = "task";
/// The property holding the environment overlay.
pub const KWD_ENV: &'static str = "env";
/// The property naming the variable that receives standard output.
pub const KWD_CAP_STDOUT: &'static str = "capture_stdout";
/// The property naming the variable that receives standard error.
pub const KWD_CAP_STDERR: &'static str = "capture_stderr";
/// The property holding the text shown for the task.
pub const KWD_DISPLAY: &'static str = "display";

/// What a task's properties configure.
pub struct SettingsM {
    pub env: VarsModel,
    pub cmd: Option<Seq<char>>,
    pub cap_out: Option<Seq<char>>,
    pub cap_err: Option<Seq<char>>,
    pub display: Option<Seq<char>>,
}

/// The scalar entries of a table, in order; other entries are left out.
pub open spec fn scalar_pairs(es: Seq<(Seq<char>, PropM)>) -> VarsModel
    decreases es.len(),
{
    if es.len() == 0 {
        Seq::empty()
    } else {
        let rest = scalar_pairs(es.drop_last());
        match es.last().1 {
            PropM::Scalar(s) => rest.push((es.last().0, s)),
            PropM::Table(_) => rest,
        }
    }
}

/// The settings after reading one more property.
pub open spec fn settings_step(st: SettingsM, e: (Seq<char>, PropM)) -> SettingsM {
    if e.0 == KWD_ENV@ {
        match e.1 {
            PropM::Table(t) => SettingsM { env: st.env + scalar_pairs(t), ..st },
            PropM::Scalar(_) => st,
        }
    } else if e.0 == KWD_TASK@ || e.0 == KWD_TASK_ALIAS@ {
        match e.1 {
            PropM::Scalar(s) => SettingsM {
                cmd: Some(s),
                display: if st.display is None { Some(s) } else { st.display },
                ..st
            },
            PropM::Table(_) => st,
        }
    } else if e.0 == KWD_CAP_STDOUT@ {
        match e.1 {
            PropM::Scalar(s) => SettingsM { cap_out: Some(s), ..st },
            PropM::Table(_) => st,
        }
    } else if e.0 == KWD_CAP_STDERR@ {
        match e.1 {
            PropM::Scalar(s) => SettingsM { cap_err: Some(s), ..st },
            PropM::Table(_) => st,
        }
    } else if e.0 == KWD_DISPLAY@ {
        match e.1 {
            PropM::Scalar(s) => SettingsM { display: Some(s), ..st },
            PropM::Table(_) => st,
        }
    } else {
        st
    }
}

/// The settings of a task whose (materialized) properties are `es`, read in
/// order, starting from the display text `name`.
pub open spec fn settings(es: Seq<(Seq<char>, PropM)>, name: Option<Seq<char>>) -> SettingsM
    decreases es.len(),
{
    if es.len() == 0 {
        SettingsM { env: Seq::empty(), cmd: None, cap_out: None, cap_err: None, display: name }
    } else {
        settings_step(settings(es.drop_last(), name), es.last())
    }
}

/// Whether `c` separates words of a command.
pub open spec fn is_space(c: char) -> bool {
    c == ' ' || c == '\t' || c == '\n' || c == '\r'
}

/// The words of `s` from index `i` on, `cur` being the word in progress.
pub open spec fn words_from(s: Seq<char>, i: int, cur: Seq<char>) -> Seq<Seq<char>>
    decreases s.len() - i,
{
    if i < 0 || i >= s.len() {
        if cur.len() > 0 { seq![cur] } else { Seq::empty() }
    } else if is_space(s[i]) {
        if cur.len() > 0 {
            seq![cur] + words_from(s, i + 1, Seq::empty())
        } else {
            words_from(s, i + 1, Seq::empty())
        }
    } else {
        words_from(s, i + 1, cur.push(s[i]))
    }
}

/// The maximal runs of non-space characters of `s`, in order.
pub open spec fn words(s: Seq<char>) -> Seq<Seq<char>> {
    words_from(s, 0, Seq::empty())
}

/// Whether `a` and `b` hold the same text.
pub fn str_eq(a: &str, b: &str) -> (r: bool)
    ensures
        r == (a@ == b@),
{
    let n = a.unicode_len();
    let m = b.unicode_len();
    if n != m {
        return false;
    }
    let mut i: usize = 0;
    while i < n
        invariant
            n == a@.len(),
            m == b@.len(),
            n == m,
            i <= n,
            forall|j: int| 0 <= j < i ==> a@[j] == b@[j],
        decreases n - i,
    {
        if a.get_char(i) != b.get_char(i) {
            return false;
        }
        i = i + 1;
    }
    proof {
        assert(a@ =~= b@);
    }
    true
}

/// Splits `s` into its words: the maximal runs of characters other than
/// space, tab, carriage return and line feed.
pub fn split_words(s: &str) -> (r: Vec<String>)
    ensures
        strings_view(r@) == words(s@),
{
    let n = s.unicode_len();
    let mut out: Vec<String> = Vec::new();
    let mut cur = String::new();
    let mut i: usize = 0;
    while i < n
        invariant
            n == s@.len(),
            i <= n,
            strings_view(out@) + words_from(s@, i as int, cur@) == words(s@),
        decreases n - i,
    {
        let c = s.get_char(i);
        let ghost prev = out@;
        if c == ' ' || c == '\t' || c == '\n' || c == '\r' {
            if cur.unicode_len() > 0 {
                let ghost w = cur@;
                out.push(cur);
                cur = String::new();
                proof {
                    assert(strings_view(out@) =~= strings_view(prev) + seq![w]);
                    assert(words_from(s@, i as int, w) == seq![w] + words_from(s@, i + 1, Seq::empty()));
                    assert(strings_view(out@) + words_from(s@, i + 1, cur@) =~= strings_view(prev) + (seq![w] + words_from(s@, i + 1, Seq::empty())));
                }
            } else {
                proof {
                    assert(cur@ =~= Seq::<char>::empty());
                }
            }
        } else {
            let ghost w = cur@;
            cur.append(s.substring_char(i, i + 1));
            proof {
                assert(s@.subrange(i as int, i + 1) =~= seq![s@[i as int]]);
                assert(cur@ =~= w.push(c));
            }
        }
        i = i + 1;
    }
    if cur.unicode_len() > 0 {
        let ghost prev = out@;
        let ghost w = cur@;
        out.push(cur);
        proof {
            assert(strings_view(out@) =~= strings_view(prev) + seq![w]);
        }
    } else {
        proof {
            assert(strings_view(out@) + Seq::<Seq<char>>::empty() =~= strings_view(out@));
        }
    }
    out
}

/// The name of what `str::trim` returns for `s`: `s` without its leading
/// and trailing white space.
pub uninterp spec fn trimmed(s: Seq<char>) -> Seq<char>;

/// Relies on `str::trim`: the result is `s` with leading and trailing white
/// space removed, a function of the characters of `s` alone.
#[verifier::external_body]
fn trim(s: &String) -> (r: String)
    ensures
        r@ == trimmed(s@),
{
    s.trim().to_string()
}

/// The diffs that the captures of a finished command give, from the trimmed
/// outputs: standard error first, then standard output.
pub open spec fn capture_model(
    cap_err: Option<Seq<char>>,
    cap_out: Option<Seq<char>>,
    out: Seq<char>,
    err: Seq<char>,
) -> VarsModel {
    let e: VarsModel = match cap_err {
        Some(k) => seq![(k, err)],
        None => Seq::empty(),
    };
    let o: VarsModel = match cap_out {
        Some(k) => seq![(k, out)],
        None => Seq::empty(),
    };
    e + o
}

/// The capture diffs of a finished command whose outputs have already been
/// trimmed.
pub fn capture_diffs(
    cap_err: &Option<String>,
    cap_out: &Option<String>,
    out: &String,
    err: &String,
) -> (r: Vec<ContextDiff>)
    ensures
        diffs_view(r@) == capture_model(
            match cap_err { Some(k) => Some(k@), None => None },
            match cap_out { Some(k) => Some(k@), None => None },
            out@,
            err@,
        ),
{
    let mut r: Vec<ContextDiff> = Vec::new();
    if let Some(k) = cap_err {
        r.push(ContextDiff::CDSet(k.clone(), err.clone()));
    }
    let ghost mid = r@;
    if let Some(k) = cap_out {
        r.push(ContextDiff::CDSet(k.clone(), out.clone()));
    }
    proof {
        assert(diffs_view(r@) =~= capture_model(
            match cap_err { Some(k) => Some(k@), None => None },
            match cap_out { Some(k) => Some(k@), None => None },
            out@,
            err@,
        ));
    }
    r
}

/// The capture diffs of a finished command from its raw outputs, which are
/// trimmed first.
pub fn capture_output(
    cap_err: &Option<String>,
    cap_out: &Option<String>,
    stdout: &String,
    stderr: &String,
) -> (r: Vec<ContextDiff>)
    ensures
        diffs_view(r@) == capture_model(
            match cap_err { Some(k) => Some(k@), None => None },
            match cap_out { Some(k) => Some(k@), None => None },
            trimmed(stdout@),
            trimmed(stderr@),
        ),
{
    let out = trim(stdout);
    let err = trim(stderr);
    capture_diffs(cap_err, cap_out, &out, &err)
}

} // verus!
