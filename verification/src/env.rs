//! Observation layouts and the symbols an environment tracks.
use vstd::prelude::*;
use crate::text::{
    chars_of, eq_ignore_ascii_case, eq_ignore_case, str_to_string, string_from_chars, trim,
    trim_chars,
};

verus! {

/// Observation vector handed to a policy.
///
/// `Stream` is the live 7-D depth window (Hold / ONNX / 3-logit); `Ladder`
/// is the Gaussian function-approximator layout.
#[derive(Debug, Clone, Copy, PartialEq, Eq, Structural)]
pub enum ObservationLayout {
    Stream,
    Ladder,
}

impl Default for ObservationLayout {
    fn default() -> (r: Self)
        ensures
            r == ObservationLayout::Stream,
    {
        ObservationLayout::Stream
    }
}

} // verus!

verus! {

/// The symbols an environment follows: the primary dispatch pair and the
/// observation pairs joined into the policy input.
#[derive(Debug, Clone)]
pub struct TrackedSymbols {
    pub symbol: String,
    /// Empty keeps a single-symbol environment; otherwise the first entry is
    /// the dispatch / inventory pair and the rest are observation-only.
    pub observation_symbols: Vec<String>,
}

pub open spec fn strings_view(v: Seq<String>) -> Seq<Seq<char>> {
    v.map_values(|s: String| s@)
}

pub open spec fn strs_view(v: Seq<&str>) -> Seq<Seq<char>> {
    v.map_values(|s: &str| s@)
}

/// A symbol joins the list trimmed, unless it is blank or already listed
/// (ASCII case ignored).
pub open spec fn push_unique(listed: Seq<Seq<char>>, symbol: Seq<char>) -> Seq<Seq<char>> {
    let t = trim(symbol);
    if t.len() == 0 || exists|i: int| 0 <= i < listed.len() && eq_ignore_case(#[trigger] listed[i], t) {
        listed
    } else {
        listed.push(t)
    }
}

/// The symbols in order, each added as `push_unique` adds it.
pub open spec fn dedup_symbols(symbols: Seq<Seq<char>>) -> Seq<Seq<char>>
    decreases symbols.len(),
{
    if symbols.len() == 0 {
        Seq::<Seq<char>>::empty()
    } else {
        push_unique(dedup_symbols(symbols.drop_last()), symbols.last())
    }
}

impl TrackedSymbols {
    /// The listed pairs: the observation list, or the primary alone.
    pub open spec fn listed(&self) -> Seq<Seq<char>> {
        if self.observation_symbols@.len() > 0 {
            strings_view(self.observation_symbols@)
        } else {
            seq![self.symbol@]
        }
    }

    /// A single-symbol set.
    pub fn new(symbol: &str) -> (r: Self)
        ensures
            r.symbol@ == symbol@,
            r.observation_symbols@.len() == 0,
    {
        TrackedSymbols { symbol: str_to_string(symbol), observation_symbols: Vec::new() }
    }

    fn push_unique_symbol(listed: &mut Vec<String>, symbol: &str)
        ensures
            strings_view(final(listed)@) == push_unique(strings_view(old(listed)@), symbol@),
    {
        let cs = chars_of(symbol);
        let t = trim_chars(cs.as_slice());
        if t.len() == 0 {
            return;
        }
        let ghost tv = strings_view(listed@);
        let mut i: usize = 0;
        while i < listed.len()
            invariant
                i <= listed@.len(),
                tv == strings_view(listed@),
                t@ == trim(symbol@),
                forall|j: int| 0 <= j < i ==> !eq_ignore_case(#[trigger] tv[j], t@),
            decreases listed@.len() - i,
        {
            let existing = chars_of(listed[i].as_str());
            if eq_ignore_ascii_case(existing.as_slice(), t.as_slice()) {
                assert(tv[i as int] == listed@[i as int]@);
                return;
            }
            i = i + 1;
        }
        listed.push(string_from_chars(t.as_slice()));
        assert(strings_view(listed@) =~= tv.push(t@));
    }

    /// Tracks `symbols` after the primary pair: blanks and case-insensitive
    /// repeats are dropped, names are trimmed, and the primary becomes the
    /// first listed name.
    pub fn observe_symbols(&mut self, symbols: &[&str])
        ensures
            ({
                let all = seq![old(self).symbol@] + strs_view(symbols@);
                let listed = dedup_symbols(all);
                &&& strings_view(final(self).observation_symbols@) == listed
                &&& final(self).symbol@ == if listed.len() > 0 {
                    listed[0]
                } else {
                    old(self).symbol@
                }
            }),
    {
        let ghost all = seq![self.symbol@] + strs_view(symbols@);
        let mut listed: Vec<String> = Vec::new();
        assert(strings_view(listed@) =~= Seq::<Seq<char>>::empty());
        TrackedSymbols::push_unique_symbol(&mut listed, self.symbol.as_str());
        proof {
            assert(dedup_symbols(Seq::<Seq<char>>::empty()) =~= Seq::<Seq<char>>::empty());
            assert(all.take(1).drop_last() =~= Seq::<Seq<char>>::empty());
            assert(all.take(1).last() == self.symbol@);
        }
        for k in 0..symbols.len()
            invariant
                all == seq![self.symbol@] + strs_view(symbols@),
                strings_view(listed@) == dedup_symbols(all.take(k + 1)),
        {
            TrackedSymbols::push_unique_symbol(&mut listed, symbols[k]);
            proof {
                assert(all.take(k + 2).drop_last() =~= all.take(k + 1));
                assert(all.take(k + 2).last() == symbols@[k as int]@);
            }
        }
        proof {
            assert(all.take((symbols@.len() + 1) as int) =~= all);
        }
        if listed.len() > 0 {
            self.symbol = listed[0].clone();
            proof {
                assert(strings_view(listed@)[0] == listed@[0]@);
            }
        }
        self.observation_symbols = listed;
    }

    /// Primary dispatch symbol first, then extra observation symbols.
    pub fn tracked_symbols(&self) -> (r: Vec<String>)
        ensures
            strings_view(r@) == self.listed(),
    {
        if self.observation_symbols.len() > 0 {
            let mut out: Vec<String> = Vec::new();
            for k in 0..self.observation_symbols.len()
                invariant
                    strings_view(out@) == strings_view(self.observation_symbols@).take(k as int),
            {
                let item = str_to_string(self.observation_symbols[k].as_str());
                let ghost before = out@;
                out.push(item);
                proof {
                    let sv = strings_view(self.observation_symbols@);
                    assert(sv[k as int] == self.observation_symbols@[k as int]@);
                    assert(out@ == before.push(item));
                    assert(strings_view(out@) =~= strings_view(before).push(item@));
                    assert(sv.take(k + 1) =~= sv.take(k as int).push(sv[k as int]));
                }
            }
            assert(strings_view(self.observation_symbols@).take(
                self.observation_symbols@.len() as int,
            ) =~= strings_view(self.observation_symbols@));
            out
        } else {
            let mut out: Vec<String> = Vec::new();
            out.push(str_to_string(self.symbol.as_str()));
            assert(strings_view(out@) =~= seq![self.symbol@]);
            out
        }
    }

    /// Whether `symbol` is listed, ASCII case ignored.
    pub fn tracks_symbol(&self, symbol: &str) -> (r: bool)
        ensures
            r == exists|i: int| 0 <= i < self.listed().len() && eq_ignore_case(
                #[trigger] self.listed()[i],
                symbol@,
            ),
    {
        let names = self.tracked_symbols();
        let s = chars_of(symbol);
        let ghost tv = self.listed();
        let mut i: usize = 0;
        while i < names.len()
            invariant
                i <= names@.len(),
                tv == self.listed(),
                strings_view(names@) == tv,
                s@ == symbol@,
                forall|j: int| 0 <= j < i ==> !eq_ignore_case(#[trigger] tv[j], symbol@),
            decreases names@.len() - i,
        {
            let n = chars_of(names[i].as_str());
            assert(tv[i as int] == names@[i as int]@);
            if eq_ignore_ascii_case(n.as_slice(), s.as_slice()) {
                return true;
            }
            i = i + 1;
        }
        false
    }

    /// More than one pair is listed.
    pub fn is_multi_symbol(&self) -> (r: bool)
        ensures
            r == (self.listed().len() > 1),
    {
        self.observation_symbols.len() > 1
    }
}

/// Tracked names are never blank and never repeat, ASCII case ignored; a
/// non-blank primary pair always comes first, trimmed.
pub proof fn lemma_dedup_symbols(symbols: Seq<Seq<char>>)
    ensures
        forall|i: int| 0 <= i < dedup_symbols(symbols).len() ==> (#[trigger] dedup_symbols(
            symbols,
        )[i]).len() > 0,
        forall|i: int, j: int|
            0 <= i < j < dedup_symbols(symbols).len() ==> !eq_ignore_case(
                #[trigger] dedup_symbols(symbols)[i],
                #[trigger] dedup_symbols(symbols)[j],
            ),
        symbols.len() > 0 && trim(symbols[0]).len() > 0 ==> dedup_symbols(symbols).len() > 0
            && dedup_symbols(symbols)[0] == trim(symbols[0]),
    decreases symbols.len(),
{
    if symbols.len() > 0 {
        let prev = symbols.drop_last();
        lemma_dedup_symbols(prev);
        let d = dedup_symbols(prev);
        let t = trim(symbols.last());
        if symbols.len() > 1 {
            assert(prev[0] == symbols[0]);
        } else {
            assert(prev.len() == 0);
            assert(d.len() == 0);
        }
        if !(t.len() == 0 || exists|i: int| 0 <= i < d.len() && eq_ignore_case(#[trigger] d[i], t)) {
            let n = d.push(t);
            assert forall|i: int, j: int| 0 <= i < j < n.len() implies !eq_ignore_case(
                #[trigger] n[i],
                #[trigger] n[j],
            ) by {
                if j == d.len() {
                    assert(n[i] == d[i]);
                    assert(!eq_ignore_case(d[i], t));
                } else {
                    assert(n[i] == d[i] && n[j] == d[j]);
                }
            }
        }
    }
}

} // verus!
