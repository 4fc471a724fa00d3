//! Training-device matching for the ROCm/HIP libtorch stack.
//!
//! The GPU orchestrator refuses CPU and the iGPU; it trains only on the
//! discrete Radeon RX card.
use vstd::prelude::*;
use crate::orchestrator::{DeviceSpec, device_text};
use crate::text::{
    ascii_lower, ascii_upper, chars_of, contains, contains_chars, decimal, decimal_string, eq_ignore_ascii_case,
    eq_ignore_case, push_char, push_str, starts_with, starts_with_chars, str_to_string, string_from_chars,
    to_lower, to_upper, trim, trim_chars,
};

verus! {

/// `text` contains `match_substr`, ASCII case ignored; an empty match never
/// passes.
pub open spec fn spec_name_matches(text: Seq<char>, match_substr: Seq<char>) -> bool {
    match_substr.len() > 0 && contains(ascii_upper(text), ascii_upper(match_substr))
}

/// The RX card: name or ISA contains the match, or the default `RX` match
/// meets the Navi 33 ISA (`gfx1102`, the RX 7600).
pub open spec fn spec_is_rx_card(name: Seq<char>, arch: Seq<char>, match_substr: Seq<char>) -> bool {
    spec_name_matches(name, match_substr) || spec_name_matches(arch, match_substr) || (
    eq_ignore_case(match_substr, "RX"@) && starts_with(ascii_lower(arch), "gfx1102"@))
}

/// An empty match never passes, whatever the name or ISA.
pub proof fn lemma_empty_match_never_passes(name: Seq<char>, arch: Seq<char>)
    ensures
        !spec_name_matches(name, Seq::<char>::empty()),
        !spec_is_rx_card(name, arch, Seq::<char>::empty()),
{
    reveal_strlit("RX");
    assert(!eq_ignore_case(Seq::<char>::empty(), "RX"@)) by {
        assert(ascii_lower(Seq::<char>::empty()).len() == 0);
        assert(ascii_lower("RX"@).len() == 2);
    }
}

/// True when `text` contains the required match as a case-insensitive substring.
pub fn name_matches_required_gpu(text: &str, match_substr: &str) -> (r: bool)
    ensures
        r == spec_name_matches(text@, match_substr@),
{
    let m = chars_of(match_substr);
    if m.len() == 0 {
        return false;
    }
    let t = to_upper(chars_of(text).as_slice());
    let mu = to_upper(m.as_slice());
    contains_chars(t.as_slice(), mu.as_slice())
}

/// Default `RX` match: marketing name contains RX, or Navi 33 ISA (RX 7600).
pub fn device_is_rx_card(name: &str, arch: &str, match_substr: &str) -> (r: bool)
    ensures
        r == spec_is_rx_card(name@, arch@, match_substr@),
{
    if name_matches_required_gpu(name, match_substr) || name_matches_required_gpu(
        arch,
        match_substr,
    ) {
        return true;
    }
    let m = chars_of(match_substr);
    let rx = chars_of("RX");
    let a = to_lower(chars_of(arch).as_slice());
    let gfx = chars_of("gfx1102");
    eq_ignore_ascii_case(m.as_slice(), rx.as_slice()) && starts_with_chars(a.as_slice(), gfx.as_slice())
}

/// `TROLLY_TRAIN_GPU_MATCH` read from the environment: the trimmed value, or
/// `RX` when unset or blank.
pub open spec fn spec_gpu_match(raw: Option<Seq<char>>) -> Seq<char> {
    match raw {
        Some(s) => if trim(s).len() > 0 {
            trim(s)
        } else {
            "RX"@
        },
        None => "RX"@,
    }
}

pub fn required_gpu_name_match(raw: Option<&str>) -> (r: String)
    ensures
        r@ == spec_gpu_match(
            match raw {
                Some(s) => Some(s@),
                None => None,
            },
        ),
{
    match raw {
        Some(s) => {
            let t = trim_chars(chars_of(s).as_slice());
            if t.len() > 0 {
                string_from_chars(t.as_slice())
            } else {
                str_to_string("RX")
            }
        },
        None => str_to_string("RX"),
    }
}

pub open spec fn is_alnum_byte(b: u8) -> bool {
    (48 <= b <= 57) || (65 <= b <= 90) || (97 <= b <= 122)
}

pub open spec fn byte_chars(b: Seq<u8>) -> Seq<char> {
    b.map_values(|x: u8| x as char)
}

pub open spec fn occurs_gfx_at(bytes: Seq<u8>, i: int) -> bool {
    0 <= i && i + 3 <= bytes.len() && bytes[i] == 103 && bytes[i + 1] == 102 && bytes[i + 2] == 120
}

/// The ISA name (`gfx…`) inside a device-properties blob: from the first
/// `gfx` to the first byte that is not an ASCII letter or digit (at most 16
/// bytes when none follows); empty when there is no `gfx`.
pub open spec fn spec_gcn_arch(bytes: Seq<u8>) -> Seq<char> {
    if exists|i: int| occurs_gfx_at(bytes, i) {
        let p = choose|i: int| occurs_gfx_at(bytes, i) && forall|j: int| 0 <= j < i ==> !occurs_gfx_at(bytes, j);
        let s = bytes.skip(p);
        if exists|j: int| 0 <= j < s.len() && !is_alnum_byte(s[j]) {
            let e = choose|j: int| 0 <= j < s.len() && !is_alnum_byte(s[j]) && forall|k: int| 0 <= k < j ==> is_alnum_byte(s[k]);
            byte_chars(s.take(e))
        } else {
            byte_chars(s.take(if s.len() < 16 { s.len() as int } else { 16 }))
        }
    } else {
        Seq::<char>::empty()
    }
}

pub fn gcn_arch_from_prop(bytes: &[u8]) -> (r: String)
    ensures
        r@ == spec_gcn_arch(bytes@),
{
    let mut pos: usize = 0;
    let mut found = false;
    while bytes.len() >= 3 && pos <= bytes.len() - 3
        invariant_except_break
            !found,
        invariant
            pos <= bytes@.len(),
            forall|j: int| 0 <= j < pos ==> !occurs_gfx_at(bytes@, j),
        ensures
            found ==> occurs_gfx_at(bytes@, pos as int),
            !found ==> pos + 3 > bytes@.len(),
        decreases bytes@.len() - pos,
    {
        if bytes[pos] == 103 && bytes[pos + 1] == 102 && bytes[pos + 2] == 120 {
            found = true;
            break;
        }
        pos = pos + 1;
    }
    if !found {
        assert forall|i: int| !occurs_gfx_at(bytes@, i) by {
            if 0 <= i && i + 3 <= bytes@.len() {
                assert(i < pos);
            }
        }
        return String::new();
    }
    assert(occurs_gfx_at(bytes@, pos as int));
    let ghost s = bytes@.skip(pos as int);
    let mut out = String::new();
    let mut k: usize = pos;
    while k < bytes.len() && is_alnum(bytes[k])
        invariant
            pos <= k <= bytes@.len(),
            occurs_gfx_at(bytes@, pos as int),
            forall|j: int| 0 <= j < pos ==> !occurs_gfx_at(bytes@, j),
            s == bytes@.skip(pos as int),
            forall|j: int| pos <= j < k ==> is_alnum_byte(bytes@[j]),
            out@ == byte_chars(s.take(k - pos)),
        decreases bytes@.len() - k,
    {
        let b = bytes[k];
        push_char(&mut out, b as char);
        assert(byte_chars(s.take(k + 1 - pos)) =~= byte_chars(s.take(k - pos)).push(b as char));
        k = k + 1;
    }
    let ghost p = choose|i: int| occurs_gfx_at(bytes@, i) && forall|j: int| 0 <= j < i ==> !occurs_gfx_at(bytes@, j);
    proof {
        assert(occurs_gfx_at(bytes@, pos as int) && forall|j: int| 0 <= j < pos ==> !occurs_gfx_at(bytes@, j));
        if p < pos {
        } else if p > pos {
            assert(!occurs_gfx_at(bytes@, pos as int));
        }
        assert(p == pos);
    }
    if k < bytes.len() {
        proof {
            assert(!is_alnum_byte(s[k - pos]));
            let e = choose|j: int| 0 <= j < s.len() && !is_alnum_byte(s[j]) && forall|m: int| 0 <= m < j ==> is_alnum_byte(s[m]);
            if e < k - pos {
                assert(is_alnum_byte(bytes@[pos + e]));
            } else if e > k - pos {
            }
            assert(e == k - pos);
        }
        out
    } else {
        // Every byte after `gfx` is alphanumeric: keep at most 16 of them.
        let keep: usize = if bytes.len() - pos < 16 {
            bytes.len() - pos
        } else {
            16
        };
        let mut trimmed = String::new();
        let mut j: usize = 0;
        while j < keep
            invariant
                pos + keep <= bytes.len(),
                j <= keep,
                s == bytes@.skip(pos as int),
                trimmed@ == byte_chars(s.take(j as int)),
            decreases keep - j,
        {
            push_char(&mut trimmed, bytes[pos + j] as char);
            assert(byte_chars(s.take(j + 1)) =~= byte_chars(s.take(j as int)).push(bytes@[pos + j] as char));
            j = j + 1;
        }
        proof {
            assert forall|m: int| 0 <= m < s.len() implies is_alnum_byte(s[m]) by {
                assert(s[m] == bytes@[pos + m]);
            }
        }
        trimmed
    }
}

fn is_alnum(b: u8) -> (r: bool)
    ensures
        r == is_alnum_byte(b),
{
    (48 <= b && b <= 57) || (65 <= b && b <= 90) || (97 <= b && b <= 122)
}

/// A HIP device as libtorch reports it.
#[derive(Clone, Debug)]
pub struct HipGpu {
    pub index: usize,
    pub name: String,
    pub arch: String,
}

pub open spec fn spec_gpu_label(index: usize, name: Seq<char>, arch: Seq<char>) -> Seq<char> {
    if arch.len() == 0 {
        "cuda:"@ + decimal(index as nat) + "="@ + name
    } else {
        "cuda:"@ + decimal(index as nat) + "="@ + name + " ("@ + arch + ")"@
    }
}

impl HipGpu {
    pub open spec fn label_text(&self) -> Seq<char> {
        spec_gpu_label(self.index, self.name@, self.arch@)
    }

    /// `cuda:N=name`, with ` (arch)` when the ISA is known.
    pub fn label(&self) -> (r: String)
        ensures
            r@ == self.label_text(),
    {
        let mut s = str_to_string("cuda:");
        let d = decimal_string(self.index as u64);
        push_str(&mut s, d.as_str());
        push_str(&mut s, "=");
        push_str(&mut s, self.name.as_str());
        if !self.arch.as_str().is_empty() {
            push_str(&mut s, " (");
            push_str(&mut s, self.arch.as_str());
            push_str(&mut s, ")");
        }
        s
    }
}

/// Refusal before any device is listed: CPU is never trained on, and
/// training needs a visible GPU.
pub open spec fn spec_precheck(spec: DeviceSpec, gpu_available: bool) -> Option<Seq<char>> {
    if spec is Cpu {
        Some("training refuses CPU (TROLLY_TRAIN_DEVICE=cpu); the discrete RX GPU is required"@)
    } else if !gpu_available {
        Some(
            "training bails: libtorch reports no CUDA/ROCm GPU (need render/video groups and a gfx1102 ROCm wheel on the RX card)"@,
        )
    } else {
        None
    }
}

pub fn rx_device_precheck(spec: DeviceSpec, gpu_available: bool) -> (r: Option<String>)
    ensures
        match spec_precheck(spec, gpu_available) {
            Some(m) => r matches Some(x) && x@ == m,
            None => r is None,
        },
{
    if let DeviceSpec::Cpu = spec {
        return Some(
            str_to_string(
                "training refuses CPU (TROLLY_TRAIN_DEVICE=cpu); the discrete RX GPU is required",
            ),
        );
    }
    if !gpu_available {
        return Some(
            str_to_string(
                "training bails: libtorch reports no CUDA/ROCm GPU (need render/video groups and a gfx1102 ROCm wheel on the RX card)",
            ),
        );
    }
    None
}

/// `label, label, …`
pub open spec fn inventory_text(gpus: Seq<(usize, Seq<char>, Seq<char>)>) -> Seq<char>
    decreases gpus.len(),
{
    if gpus.len() == 0 {
        Seq::<char>::empty()
    } else if gpus.len() == 1 {
        spec_gpu_label(gpus[0].0, gpus[0].1, gpus[0].2)
    } else {
        inventory_text(gpus.drop_last()) + ", "@ + spec_gpu_label(
            gpus.last().0,
            gpus.last().1,
            gpus.last().2,
        )
    }
}

pub open spec fn gpus_view(gpus: Seq<HipGpu>) -> Seq<(usize, Seq<char>, Seq<char>)> {
    gpus.map_values(|g: HipGpu| (g.index, g.name@, g.arch@))
}

pub open spec fn is_candidate(spec: DeviceSpec, g: (usize, Seq<char>, Seq<char>)) -> bool {
    match spec {
        DeviceSpec::Cuda(i) => g.0 == i,
        _ => true,
    }
}

/// Device choice among the listed HIP devices: the first candidate (all of
/// them, or those with the requested index) that is the RX card.
pub open spec fn spec_select_rx(
    spec: DeviceSpec,
    gpus: Seq<(usize, Seq<char>, Seq<char>)>,
    match_substr: Seq<char>,
) -> Result<usize, Seq<char>> {
    if gpus.len() == 0 {
        Err("training bails: HIP device count is 0"@)
    } else if spec is Cuda && !(exists|i: int| 0 <= i < gpus.len() && is_candidate(spec, gpus[i])) {
        Err(
            "training bails: TROLLY_TRAIN_DEVICE="@ + device_text(spec) + " but HIP has no such device ("@
                + inventory_text(gpus) + ")"@,
        )
    } else if exists|i: int|
        0 <= i < gpus.len() && is_candidate(spec, gpus[i]) && spec_is_rx_card(gpus[i].1, gpus[i].2, match_substr) {
        let i = choose|i: int|
            0 <= i < gpus.len() && is_candidate(spec, gpus[i]) && spec_is_rx_card(gpus[i].1, gpus[i].2, match_substr)
                && forall|j: int|
                0 <= j < i ==> !(is_candidate(spec, gpus[j]) && spec_is_rx_card(gpus[j].1, gpus[j].2, match_substr));
        Ok(gpus[i].0)
    } else {
        Err(
            "training bails: no visible device is the RX card (match `"@ + match_substr
                + "` / gfx1102; refuses CPU and iGPU). Visible: "@ + inventory_text(gpus),
        )
    }
}

fn inventory(gpus: &[HipGpu]) -> (r: String)
    ensures
        r@ == inventory_text(gpus_view(gpus@)),
{
    let mut s = String::new();
    let ghost gv = gpus_view(gpus@);
    for i in 0..gpus.len()
        invariant
            gv == gpus_view(gpus@),
            s@ == inventory_text(gv.take(i as int)),
    {
        assert(gv.take(i + 1).drop_last() =~= gv.take(i as int));
        if i > 0 {
            push_str(&mut s, ", ");
        }
        let l = gpus[i].label();
        push_str(&mut s, l.as_str());
        proof {
            if i == 0 {
                assert(s@ =~= inventory_text(gv.take(1)));
            } else {
                assert(s@ =~= inventory_text(gv.take(i + 1)));
            }
        }
    }
    assert(gv.take(gpus@.len() as int) =~= gv);
    s
}

/// Picks the RX card among the listed devices, or explains why none fits.
pub fn select_rx_device(spec: DeviceSpec, gpus: &[HipGpu], match_substr: &str) -> (r: Result<
    usize,
    String,
>)
    ensures
        match spec_select_rx(spec, gpus_view(gpus@), match_substr@) {
            Ok(i) => r == Ok::<usize, String>(i),
            Err(m) => r matches Err(x) && x@ == m,
        },
{
    let ghost gv = gpus_view(gpus@);
    if gpus.len() == 0 {
        return Err(str_to_string("training bails: HIP device count is 0"));
    }
    let inv = inventory(gpus);
    let mut any_candidate = false;
    let mut k: usize = 0;
    while k < gpus.len()
        invariant
            gv == gpus_view(gpus@),
            k <= gpus@.len(),
            any_candidate == exists|i: int| 0 <= i < k && is_candidate(spec, gv[i]),
            forall|j: int|
                0 <= j < k ==> !(is_candidate(spec, gv[j]) && spec_is_rx_card(gv[j].1, gv[j].2, match_substr@)),
        decreases gpus@.len() - k,
    {
        let g = &gpus[k];
        assert(gv[k as int] == (g.index, g.name@, g.arch@));
        let cand = match spec {
            DeviceSpec::Cuda(i) => g.index == i,
            _ => true,
        };
        if cand {
            any_candidate = true;
            if device_is_rx_card(g.name.as_str(), g.arch.as_str(), match_substr) {
                let ghost w = choose|i: int|
                    0 <= i < gv.len() && is_candidate(spec, gv[i]) && spec_is_rx_card(gv[i].1, gv[i].2, match_substr@)
                        && forall|j: int|
                        0 <= j < i ==> !(is_candidate(spec, gv[j]) && spec_is_rx_card(gv[j].1, gv[j].2, match_substr@));
                proof {
                    assert(is_candidate(spec, gv[k as int]) && spec_is_rx_card(gv[k as int].1, gv[k as int].2, match_substr@));
                    if w < k {
                    } else if w > k {
                    }
                    assert(w == k);
                }
                return Ok(g.index);
            }
        }
        k = k + 1;
    }
    if let DeviceSpec::Cuda(_) = spec {
        if !any_candidate {
            let mut m = str_to_string("training bails: TROLLY_TRAIN_DEVICE=");
            let st = spec.to_string();
            push_str(&mut m, st.as_str());
            push_str(&mut m, " but HIP has no such device (");
            push_str(&mut m, inv.as_str());
            push_str(&mut m, ")");
            return Err(m);
        }
    }
    let mut m = str_to_string("training bails: no visible device is the RX card (match `");
    push_str(&mut m, match_substr);
    push_str(&mut m, "` / gfx1102; refuses CPU and iGPU). Visible: ");
    push_str(&mut m, inv.as_str());
    Err(m)
}

/// CPU is always refused, and a GPU spec passes the pre-check exactly when a
/// GPU is visible.
pub proof fn lemma_precheck_refuses_cpu(spec: DeviceSpec, gpu_available: bool)
    ensures
        spec is Cpu ==> spec_precheck(spec, gpu_available) is Some,
        !(spec is Cpu) ==> (spec_precheck(spec, gpu_available) is None <==> gpu_available),
{
}

/// A chosen device is always one of the listed devices, the requested one
/// when an index was requested, and the RX card.
pub proof fn lemma_selected_is_rx_card(
    spec: DeviceSpec,
    gpus: Seq<(usize, Seq<char>, Seq<char>)>,
    match_substr: Seq<char>,
)
    ensures
        spec_select_rx(spec, gpus, match_substr) matches Ok(i) ==> exists|k: int|
            0 <= k < gpus.len() && gpus[k].0 == i && is_candidate(spec, gpus[k]) && spec_is_rx_card(
                gpus[k].1,
                gpus[k].2,
                match_substr,
            ),
{
    if spec_select_rx(spec, gpus, match_substr) is Ok {
        if gpus.len() != 0 && !(spec is Cuda && !(exists|i: int| 0 <= i < gpus.len() && is_candidate(spec, gpus[i]))) {
            let w = choose|i: int|
                0 <= i < gpus.len() && is_candidate(spec, gpus[i]) && spec_is_rx_card(gpus[i].1, gpus[i].2, match_substr);
            lemma_first_fit_exists(spec, gpus, match_substr, w);
        }
    }
}

proof fn lemma_first_fit_exists(
    spec: DeviceSpec,
    gpus: Seq<(usize, Seq<char>, Seq<char>)>,
    match_substr: Seq<char>,
    w: int,
)
    requires
        0 <= w < gpus.len(),
        is_candidate(spec, gpus[w]) && spec_is_rx_card(gpus[w].1, gpus[w].2, match_substr),
    ensures
        exists|k: int|
            0 <= k < gpus.len() && is_candidate(spec, gpus[k]) && spec_is_rx_card(gpus[k].1, gpus[k].2, match_substr)
                && forall|j: int|
                0 <= j < k ==> !(is_candidate(spec, gpus[j]) && spec_is_rx_card(gpus[j].1, gpus[j].2, match_substr)),
    decreases w,
{
    if exists|j: int| 0 <= j < w && is_candidate(spec, gpus[j]) && spec_is_rx_card(gpus[j].1, gpus[j].2, match_substr) {
        let j = choose|j: int|
            0 <= j < w && is_candidate(spec, gpus[j]) && spec_is_rx_card(gpus[j].1, gpus[j].2, match_substr);
        lemma_first_fit_exists(spec, gpus, match_substr, j);
    }
}

} // verus!
