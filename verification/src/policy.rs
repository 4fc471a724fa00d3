//! Fixed policies and checkpoint architecture detection.
use vstd::prelude::*;
use crate::action::Action;
use crate::text::{
    chars_of, contains, contains_chars, is_whitespace, is_whitespace_char, string_from_chars, trim,
    trim_chars, str_to_string,
};
use crate::train::gaussian::{GaussianArchitecture, GAUSSIAN_LIQUID_ARCH};

verus! {

/// Default policy that never changes inventory.
#[derive(Debug, Default, Clone, Copy)]
pub struct HoldPolicy;

impl HoldPolicy {
    /// The action for any observation: hold.
    pub fn act(&self) -> (r: Action)
        ensures
            r == Action::Hold,
    {
        Action::Hold
    }
}

/// A checkpoint path names the Liquid-on-rungs architecture when its text
/// contains that architecture's directory name; every other path is the MLP.
pub fn gaussian_architecture_from_path(path: &str) -> (r: GaussianArchitecture)
    ensures
        r == if contains(path@, GAUSSIAN_LIQUID_ARCH@) {
            GaussianArchitecture::LiquidRungs
        } else {
            GaussianArchitecture::Mlp
        },
{
    let text = chars_of(path);
    let arch = chars_of(GAUSSIAN_LIQUID_ARCH);
    if contains_chars(text.as_slice(), arch.as_slice()) {
        GaussianArchitecture::LiquidRungs
    } else {
        GaussianArchitecture::Mlp
    }
}

/// Separators of a recorded mean-action vector: commas and whitespace.
pub open spec fn is_mean_sep(c: char) -> bool {
    c == ',' || is_whitespace(c)
}

/// The non-empty pieces between separators.
pub open spec fn mean_tokens(s: Seq<char>) -> Seq<Seq<char>>
    decreases s.len(),
{
    if s.len() == 0 {
        Seq::<Seq<char>>::empty()
    } else {
        let prev = mean_tokens(s.drop_last());
        if is_mean_sep(s.last()) {
            prev
        } else if s.len() >= 2 && !is_mean_sep(s[s.len() - 2]) {
            prev.update(prev.len() - 1, prev.last().push(s.last()))
        } else {
            prev.push(seq![s.last()])
        }
    }
}

proof fn lemma_mean_tokens_nonempty_after_token(s: Seq<char>)
    requires
        s.len() > 0,
        !is_mean_sep(s.last()),
    ensures
        mean_tokens(s).len() > 0,
    decreases s.len(),
{
    if s.len() >= 2 && !is_mean_sep(s[s.len() - 2]) {
        lemma_mean_tokens_nonempty_after_token(s.drop_last());
    }
}

fn tokens_of(s: &[char]) -> (r: Vec<Vec<char>>)
    ensures
        r@.len() == mean_tokens(s@).len(),
        forall|i: int| 0 <= i < r@.len() ==> #[trigger] r@[i]@ == mean_tokens(s@)[i],
{
    let mut out: Vec<Vec<char>> = Vec::new();
    for i in 0..s.len()
        invariant
            out@.len() == mean_tokens(s@.take(i as int)).len(),
            forall|k: int| 0 <= k < out@.len() ==> #[trigger] out@[k]@ == mean_tokens(
                s@.take(i as int),
            )[k],
    {
        assert(s@.take(i + 1).drop_last() =~= s@.take(i as int));
        let c = s[i];
        let sep = c == ',' || is_whitespace_char(c);
        if sep {
        } else if i >= 1 && !(s[i - 1] == ',' || is_whitespace_char(s[i - 1])) {
            proof {
                assert(s@.take(i + 1)[i - 1] == s@[i - 1]);
                lemma_mean_tokens_nonempty_after_token(s@.take(i as int));
            }
            let last = out.len() - 1;
            let mut w = out.remove(last);
            w.push(c);
            out.push(w);
            assert forall|k: int| 0 <= k < out@.len() implies #[trigger] out@[k]@ == mean_tokens(
                s@.take(i + 1),
            )[k] by {
                if k < last as int {
                } else {
                }
            }
        } else {
            let mut w: Vec<char> = Vec::new();
            w.push(c);
            out.push(w);
            assert forall|k: int| 0 <= k < out@.len() implies #[trigger] out@[k]@ == mean_tokens(
                s@.take(i + 1),
            )[k] by {
                if k < out@.len() - 1 {
                } else {
                    assert(w@ =~= seq![c]);
                }
            }
        }
    }
    assert(s@.take(s@.len() as int) =~= s@);
    out
}

/// The number fields of a recorded mean-action vector (comma- and/or
/// whitespace-separated), or the error for a blank vector.
pub fn mean_action_fields(spec: &str) -> (r: Result<Vec<String>, String>)
    ensures
        trim(spec@).len() == 0 ==> (r matches Err(e) && e@ == "empty mean-action vector"@),
        trim(spec@).len() > 0 ==> (r matches Ok(v) && v@.len() == mean_tokens(trim(spec@)).len()
            && forall|i: int| 0 <= i < v@.len() ==> #[trigger] v@[i]@ == mean_tokens(trim(spec@))[i]),
{
    let cs = chars_of(spec);
    let t = trim_chars(cs.as_slice());
    if t.len() == 0 {
        return Err(str_to_string("empty mean-action vector"));
    }
    let toks = tokens_of(t.as_slice());
    let mut out: Vec<String> = Vec::new();
    for i in 0..toks.len()
        invariant
            forall|k: int| 0 <= k < toks@.len() ==> #[trigger] toks@[k]@ == mean_tokens(t@)[k],
            out@.len() == i,
            forall|k: int| 0 <= k < i ==> #[trigger] out@[k]@ == toks@[k]@,
    {
        out.push(string_from_chars(toks[i].as_slice()));
    }
    Ok(out)
}

} // verus!
