use crate::text::{concat_text, decimal, labelled, push_char};
use vstd::prelude::*;

verus! {

/// The characters of `s`, in order.
pub(crate) fn chars_of(s: &str) -> (r: Vec<char>)
    ensures
        r@ == s@,
{
    let mut r: Vec<char> = Vec::new();
    for c in it: s.chars()
        invariant
            it.seq() == s@,
            r@ == s@.take(it.index() as int),
    {
        proof {
            assert(s@.take(it.index() + 1) == s@.take(it.index() as int).push(c));
        }
        r.push(c);
    }
    proof {
        assert(s@.take(s@.len() as int) == s@);
    }
    r
}

/// Whether `pat` occurs in `s` at position `i`.
pub open spec fn occurs_at(s: Seq<char>, pat: Seq<char>, i: int) -> bool {
    0 <= i && i + pat.len() <= s.len() && s.subrange(i, i + pat.len()) == pat
}

/// Whether `pat` occurs anywhere in `s`.
pub open spec fn text_contains(s: Seq<char>, pat: Seq<char>) -> bool {
    exists|i: int| #[trigger] occurs_at(s, pat, i)
}

/// `s` with every occurrence of the non-empty `pat` replaced by `rep`, the
/// occurrences taken from left to right without overlap (as `str::replace`).
pub open spec fn replace_all(s: Seq<char>, pat: Seq<char>, rep: Seq<char>) -> Seq<char>
    decreases s.len(),
{
    if pat.len() == 0 || s.len() < pat.len() {
        s
    } else if s.subrange(0, pat.len() as int) == pat {
        rep + replace_all(s.subrange(pat.len() as int, s.len() as int), pat, rep)
    } else {
        seq![s[0]] + replace_all(s.drop_first(), pat, rep)
    }
}

/// Whether `pat` occurs in `s` at position `i` (given as characters).
fn matches_at(s: &Vec<char>, pat: &Vec<char>, i: usize) -> (r: bool)
    requires
        i <= s@.len(),
    ensures
        r == occurs_at(s@, pat@, i as int),
{
    let n = s.len();
    if pat.len() > n - i {
        return false;
    }
    let mut j: usize = 0;
    while j < pat.len()
        invariant
            n == s@.len(),
            i + pat@.len() <= n,
            j <= pat@.len(),
            forall|k: int| 0 <= k < j ==> s@[i + k] == pat@[k],
        decreases pat@.len() - j,
    {
        if s[i + j] != pat[j] {
            proof {
                assert(s@.subrange(i as int, i + pat@.len())[j as int] != pat@[j as int]);
            }
            return false;
        }
        j += 1;
    }
    proof {
        assert(s@.subrange(i as int, i + pat@.len()) =~= pat@);
    }
    true
}

proof fn lemma_replace_step(s: Seq<char>, pat: Seq<char>, rep: Seq<char>, i: int)
    requires
        pat.len() > 0,
        0 <= i <= s.len(),
    ensures
        i + pat.len() <= s.len() && occurs_at(s, pat, i) ==> replace_all(s.subrange(i, s.len() as int), pat, rep)
            == rep + replace_all(s.subrange(i + pat.len(), s.len() as int), pat, rep),
        i < s.len() && !occurs_at(s, pat, i) ==> replace_all(s.subrange(i, s.len() as int), pat, rep) == seq![
            s[i],
        ] + replace_all(s.subrange(i + 1, s.len() as int), pat, rep),
{
    let t = s.subrange(i, s.len() as int);
    if i + pat.len() <= s.len() {
        assert(t.subrange(0, pat.len() as int) == s.subrange(i, i + pat.len()));
        assert(t.subrange(pat.len() as int, t.len() as int) == s.subrange(i + pat.len(), s.len() as int));
    }
    if i < s.len() {
        assert(t.drop_first() == s.subrange(i + 1, s.len() as int));
        assert(t[0] == s[i]);
    }
}

/// `s` with every occurrence of `pat` (not empty) replaced by `rep`.
fn replace_text(s: &str, pat: &str, rep: &str) -> (r: String)
    requires
        pat@.len() > 0,
    ensures
        r@ == replace_all(s@, pat@, rep@),
{
    let cs = chars_of(s);
    let ps = chars_of(pat);
    let rs = chars_of(rep);
    let mut out = String::new();
    let mut i: usize = 0;
    proof {
        assert(s@.subrange(0, s@.len() as int) == s@);
        assert(out@ + replace_all(s@, pat@, rep@) =~= replace_all(s@, pat@, rep@));
    }
    while i < cs.len()
        invariant
            cs@ == s@,
            ps@ == pat@,
            rs@ == rep@,
            pat@.len() > 0,
            i <= cs@.len(),
            out@ + replace_all(s@.subrange(i as int, s@.len() as int), pat@, rep@) == replace_all(s@, pat@, rep@),
        decreases cs@.len() - i,
    {
        proof {
            lemma_replace_step(s@, pat@, rep@, i as int);
        }
        if matches_at(&cs, &ps, i) {
            let ghost before = out@;
            let mut k: usize = 0;
            while k < rs.len()
                invariant
                    rs@ == rep@,
                    k <= rs@.len(),
                    out@ == before + rep@.take(k as int),
                decreases rs@.len() - k,
            {
                push_char(&mut out, rs[k]);
                proof {
                    assert(rep@.take(k + 1) == rep@.take(k as int).push(rs@[k as int]));
                }
                k += 1;
            }
            proof {
                assert(rep@.take(rep@.len() as int) == rep@);
                assert(out@ + replace_all(s@.subrange(i + ps@.len(), s@.len() as int), pat@, rep@) == before + (rep@
                    + replace_all(s@.subrange(i + ps@.len(), s@.len() as int), pat@, rep@)));
            }
            i = i + ps.len();
        } else {
            let ghost before = out@;
            push_char(&mut out, cs[i]);
            proof {
                assert(out@ + replace_all(s@.subrange(i + 1, s@.len() as int), pat@, rep@) == before + (seq![s@[i as int]]
                    + replace_all(s@.subrange(i + 1, s@.len() as int), pat@, rep@)));
            }
            i = i + 1;
        }
    }
    proof {
        assert(s@.subrange(i as int, s@.len() as int) =~= Seq::<char>::empty());
    }
    out
}

/// The placeholder of argument `i` of a template: `{i}`.
pub open spec fn placeholder(i: nat) -> Seq<char> {
    "{"@ + decimal(i) + "}"@
}

/// The template with the placeholders `{0}` … `{k-1}` replaced in turn by the
/// arguments.
pub open spec fn substitute(t: Seq<char>, args: Seq<Seq<char>>, k: nat) -> Seq<char>
    decreases k,
{
    if k == 0 {
        t
    } else {
        replace_all(substitute(t, args, (k - 1) as nat), placeholder((k - 1) as nat), args[k - 1])
    }
}

/// The template a String Format node uses: the text on its template input when
/// that is a non-empty text, its stored template otherwise.
pub open spec fn effective_template(input: Option<Seq<char>>, stored: Seq<char>) -> Seq<char> {
    match input {
        Some(t) => if t.len() > 0 {
            t
        } else {
            stored
        },
        None => stored,
    }
}

/// The output of a String Format node: its template with `{0}`, `{1}`, … replaced
/// in turn by the rendered arguments.
pub fn string_format(template_input: Option<&str>, stored: &str, args: &Vec<String>) -> (r: String)
    ensures
        r@ == substitute(
            effective_template(
                match template_input {
                    Some(t) => Some(t@),
                    None => None,
                },
                stored@,
            ),
            args@.map_values(|a: String| a@),
            args@.len(),
        ),
{
    let mut result = match template_input {
        Some(t) => if t.is_empty() {
            stored.to_owned()
        } else {
            t.to_owned()
        },
        None => stored.to_owned(),
    };
    let ghost t0 = result@;
    let ghost av = args@.map_values(|a: String| a@);
    let mut i: usize = 0;
    while i < args.len()
        invariant
            av == args@.map_values(|a: String| a@),
            i <= args@.len(),
            result@ == substitute(t0, av, i as nat),
        decreases args@.len() - i,
    {
        let head = labelled("{", i as u64);
        let pat = concat_text(head.as_str(), "}");
        proof {
            assert(pat@ == placeholder(i as nat));
        }
        let next = replace_text(result.as_str(), pat.as_str(), args[i].as_str());
        result = next;
        i += 1;
    }
    result
}

/// What an AI request's status text says.
#[derive(Clone, Copy, Debug, PartialEq, Eq, Structural)]
pub enum AiStatus {
    Done,
    Error,
    Thinking,
    Idle,
}

/// Whether `pat` occurs in `s`.
pub(crate) fn contains_text(s: &str, pat: &str) -> (r: bool)
    ensures
        r == text_contains(s@, pat@),
{
    let cs = chars_of(s);
    let ps = chars_of(pat);
    let mut i: usize = 0;
    while i <= cs.len()
        invariant
            cs@ == s@,
            ps@ == pat@,
            i <= cs@.len() + 1,
            forall|j: int| 0 <= j < i ==> !occurs_at(s@, pat@, j),
        decreases cs@.len() + 1 - i,
    {
        if matches_at(&cs, &ps, i) {
            return true;
        }
        if i == cs.len() {
            proof {
                assert forall|j: int| !(#[trigger] occurs_at(s@, pat@, j)) by {
                    if 0 <= j && j <= cs@.len() {
                        assert(j < i + 1);
                    }
                }
            }
            return false;
        }
        i += 1;
    }
    false
}

/// The state an AI request's status text reports: finished (it mentions `done`),
/// failed (`error`), waiting (`thinking`), or none of these, checked in that order.
pub fn ai_status(status: &str) -> (r: AiStatus)
    ensures
        r == (if text_contains(status@, "done"@) {
            AiStatus::Done
        } else if text_contains(status@, "error"@) {
            AiStatus::Error
        } else if text_contains(status@, "thinking"@) {
            AiStatus::Thinking
        } else {
            AiStatus::Idle
        }),
{
    if contains_text(status, "done") {
        AiStatus::Done
    } else if contains_text(status, "error") {
        AiStatus::Error
    } else if contains_text(status, "thinking") {
        AiStatus::Thinking
    } else {
        AiStatus::Idle
    }
}

} // verus!
