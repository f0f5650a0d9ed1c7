//! Analysis settings and the stable digest that keys the analysis cache.
use vstd::prelude::*;

use crate::text::{chars_of, decimal, digit_char, push_decimal};

verus! {

/// Tempo in beats per minute, carried to two decimals: the value is in hundredths of a BPM
/// (`Bpm(12_800)` is 128.00 BPM).
#[derive(Debug, Clone, Copy, PartialEq, Eq, Hash, Structural)]
pub struct Bpm(pub u32);

/// Which beat-tracking model runs.
#[derive(Debug, Clone, Copy, PartialEq, Eq, Hash, Structural)]
pub enum Model {
    /// The bundled small model (about 10 MB, about 50x real time on an M1).
    Small,
    /// The full model, a developer option.
    Full,
}

/// Everything that changes an analysis result besides the audio itself.
#[derive(Debug, Clone, Copy, PartialEq, Eq)]
pub struct AnalysisSettings {
    /// The user's DJ-app BPM range; the octave is chosen inside it first.
    pub bpm_range: (Bpm, Bpm),
    /// Run beat tracking and the grid solver (false for loudness-only batches).
    pub grid: bool,
    /// Beat-tracking model.
    pub model: Model,
}

/// The FNV-1a offset basis (64-bit).
pub open spec fn fnv_offset() -> u64 {
    0xcbf2_9ce4_8422_2325
}

/// The FNV-1a prime (64-bit).
pub open spec fn fnv_prime() -> u64 {
    0x0000_0100_0000_01b3
}

/// FNV-1a over `bytes`: start at the offset basis, then for each byte xor it in and multiply by
/// the prime modulo 2^64.
pub open spec fn fnv1a(bytes: Seq<u8>) -> u64
    decreases bytes.len(),
{
    if bytes.len() == 0 {
        fnv_offset()
    } else {
        (fnv1a(bytes.drop_last()) ^ (bytes.last() as u64)).wrapping_mul(fnv_prime())
    }
}

/// FNV-1a, 64-bit (Fowler-Noll-Vo).
pub fn fnv1a_64(bytes: &[u8]) -> (h: u64)
    ensures
        h == fnv1a(bytes@),
{
    let mut hash: u64 = 0xcbf2_9ce4_8422_2325;
    let n = bytes.len();
    let mut i: usize = 0;
    while i < n
        invariant
            n == bytes@.len(),
            0 <= i <= n,
            hash == fnv1a(bytes@.take(i as int)),
        decreases n - i,
    {
        assert(bytes@.take(i + 1).drop_last() =~= bytes@.take(i as int));
        hash = (hash ^ bytes[i] as u64).wrapping_mul(0x0000_0100_0000_01b3);
        i = i + 1;
    }
    assert(bytes@.take(n as int) =~= bytes@);
    hash
}

/// A value in hundredths written with two decimals: 7000 is `70.00`.
pub open spec fn fixed2(hundredths: nat) -> Seq<char> {
    decimal(hundredths / 100) + seq!['.', digit_char((hundredths % 100) / 10), digit_char(hundredths % 10)]
}

/// The name a model is printed with.
pub open spec fn model_name(m: Model) -> Seq<char> {
    match m {
        Model::Small => "Small"@,
        Model::Full => "Full"@,
    }
}

/// The canonical text the settings digest is taken over:
/// `bpm_range=70.00-180.00;grid=true;model=Small`.
pub open spec fn settings_text(s: AnalysisSettings) -> Seq<char> {
    "bpm_range="@ + fixed2(s.bpm_range.0.0 as nat) + "-"@ + fixed2(s.bpm_range.1.0 as nat)
        + ";grid="@ + (if s.grid { "true"@ } else { "false"@ }) + ";model="@ + model_name(s.model)
}

/// Each character taken as its code unit; the UTF-8 encoding of an ASCII text.
pub open spec fn ascii_bytes(s: Seq<char>) -> Seq<u8> {
    Seq::new(s.len(), |i: int| s[i] as u8)
}

/// Appends `hundredths` written with two decimals.
fn push_fixed2(out: &mut Vec<char>, hundredths: u32)
    ensures
        final(out)@ == old(out)@ + fixed2(hundredths as nat),
{
    push_decimal(out, hundredths / 100);
    out.push('.');
    let tens = (hundredths % 100) / 10;
    let ones = hundredths % 10;
    out.push(crate::text::digit(tens));
    out.push(crate::text::digit(ones));
}

/// Appends every character of `s`.
fn push_str(out: &mut Vec<char>, s: &str)
    ensures
        final(out)@ == old(out)@ + s@,
{
    let v = chars_of(s);
    let ghost start = out@;
    let n = v.len();
    let mut i: usize = 0;
    while i < n
        invariant
            n == v@.len(),
            v@ == s@,
            0 <= i <= n,
            out@ == start + v@.take(i as int),
        decreases n - i,
    {
        out.push(v[i]);
        assert(v@.take(i + 1) =~= v@.take(i as int).push(v@[i as int]));
        i = i + 1;
    }
    assert(v@.take(n as int) =~= v@);
}

impl Default for AnalysisSettings {
    /// 70-180 BPM (rekordbox Normal mode), grid on, small model.
    fn default() -> (s: Self)
        ensures
            s.bpm_range == (Bpm(7_000), Bpm(18_000)),
            s.grid,
            s.model == Model::Small,
    {
        AnalysisSettings { bpm_range: (Bpm(7_000), Bpm(18_000)), grid: true, model: Model::Small }
    }
}

impl AnalysisSettings {
    /// The canonical text form of the settings (see [`settings_text`]).
    pub fn canonical_text(&self) -> (v: Vec<char>)
        ensures
            v@ == settings_text(*self),
    {
        let mut out: Vec<char> = Vec::new();
        push_str(&mut out, "bpm_range=");
        push_fixed2(&mut out, self.bpm_range.0.0);
        push_str(&mut out, "-");
        push_fixed2(&mut out, self.bpm_range.1.0);
        push_str(&mut out, ";grid=");
        if self.grid {
            push_str(&mut out, "true");
        } else {
            push_str(&mut out, "false");
        }
        push_str(&mut out, ";model=");
        match self.model {
            Model::Small => push_str(&mut out, "Small"),
            Model::Full => push_str(&mut out, "Full"),
        }
        assert(out@ =~= settings_text(*self));
        out
    }

    /// A stable 64-bit digest of the settings, part of the cache key. FNV-1a over a canonical
    /// text form, so the value does not depend on the Rust version or the platform.
    pub fn settings_hash(&self) -> (h: u64)
        ensures
            h == fnv1a(ascii_bytes(settings_text(*self))),
    {
        let text = self.canonical_text();
        let mut bytes: Vec<u8> = Vec::new();
        let n = text.len();
        let mut i: usize = 0;
        while i < n
            invariant
                n == text@.len(),
                0 <= i <= n,
                bytes@ == ascii_bytes(text@).take(i as int),
            decreases n - i,
        {
            bytes.push(text[i] as u8);
            assert(bytes@ =~= ascii_bytes(text@).take(i + 1));
            i = i + 1;
        }
        assert(bytes@ =~= ascii_bytes(text@));
        fnv1a_64(bytes.as_slice())
    }
}

/// The canonical text ends with `;model=` and the model's own name, so settings that differ in
/// the model never share a text (and so never share a cache key by their text).
pub proof fn the_model_is_named_last(s: AnalysisSettings, o: AnalysisSettings)
    ensures
        ({
            let t = settings_text(s);
            &&& s.model == Model::Small ==> t.len() >= 12 && t.subrange(t.len() - 12, t.len() as int) == ";model=Small"@
            &&& s.model == Model::Full ==> t.len() >= 11 && t.subrange(t.len() - 11, t.len() as int) == ";model=Full"@
        }),
        s.model != o.model ==> settings_text(s) != settings_text(o),
{
    reveal_strlit(";model=");
    reveal_strlit("Small");
    reveal_strlit("Full");
    reveal_strlit(";model=Small");
    reveal_strlit(";model=Full");
    lemma_text_tail(s);
    lemma_text_tail(o);
    if s.model != o.model && settings_text(s) == settings_text(o) {
        let (a, b) = if s.model == Model::Small { (s, o) } else { (o, s) };
        lemma_text_tail(a);
        lemma_text_tail(b);
        let t = settings_text(a);
        assert(t.subrange(t.len() - 12, t.len() as int)[1] == 'm');
        assert(t.subrange(t.len() - 11, t.len() as int)[0] == ';');
        assert(t[t.len() - 11] == 'm');
        assert(t[t.len() - 11] == ';');
    }
}

proof fn lemma_text_tail(s: AnalysisSettings)
    ensures
        ({
            let t = settings_text(s);
            &&& s.model == Model::Small ==> t.len() >= 12 && t.subrange(t.len() - 12, t.len() as int) == ";model=Small"@
            &&& s.model == Model::Full ==> t.len() >= 11 && t.subrange(t.len() - 11, t.len() as int) == ";model=Full"@
        }),
{
    reveal_strlit(";model=");
    reveal_strlit("Small");
    reveal_strlit("Full");
    reveal_strlit(";model=Small");
    reveal_strlit(";model=Full");
    let head = "bpm_range="@ + fixed2(s.bpm_range.0.0 as nat) + "-"@ + fixed2(s.bpm_range.1.0 as nat)
        + ";grid="@ + (if s.grid { "true"@ } else { "false"@ });
    let tail = ";model="@ + model_name(s.model);
    assert(settings_text(s) =~= head + tail);
    let t = head + tail;
    assert(t.subrange(t.len() - tail.len(), t.len() as int) =~= tail);
    if s.model == Model::Small {
        assert(tail =~= ";model=Small"@);
    } else {
        assert(tail =~= ";model=Full"@);
    }
}

} // verus!
