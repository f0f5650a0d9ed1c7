//! The audio codecs SoundCheck recognises, told apart by file name.
use vstd::prelude::*;

use crate::text::chars_of;

verus! {

/// The audio codecs SoundCheck recognises.
#[derive(Debug, Clone, Copy, PartialEq, Eq, Hash, Structural)]
pub enum Codec {
    /// PCM in RIFF/RF64 WAVE.
    Wav,
    /// PCM in AIFF or AIFF-C.
    Aiff,
    /// FLAC.
    Flac,
    /// MPEG-1/2 Layer III.
    Mp3,
    /// AAC in MP4/M4A or ADTS.
    Aac,
    /// Apple Lossless in MP4/M4A.
    Alac,
    /// Ogg Vorbis.
    Vorbis,
    /// Ogg Opus.
    Opus,
    /// Anything else the decoder could open.
    Other,
}

/// Names what `std::path::Path::extension` gives for the path `path` (with the separators of
/// the platform the library is built for): the part of the file name after its last `.`, or
/// nothing when the name has no `.` past its first character.
pub uninterp spec fn path_extension(path: Seq<char>) -> Option<Seq<char>>;

/// The extension of `path`, as `std::path::Path::extension` finds it.
#[verifier::external_body]
fn extension_of(path: &str) -> (e: Option<Vec<char>>)
    ensures
        match e {
            Some(v) => path_extension(path@) == Some(v@),
            None => path_extension(path@) is None,
        },
{
    std::path::Path::new(path).extension().and_then(|e| e.to_str()).map(|e| e.chars().collect())
}

/// `c` with `A`-`Z` mapped to `a`-`z`; every other character unchanged.
pub open spec fn ascii_lower(c: char) -> char {
    if 'A' <= c <= 'Z' {
        ((c as u32) + 32) as char
    } else {
        c
    }
}

/// Every character of `s` through [`ascii_lower`].
pub open spec fn ascii_lower_all(s: Seq<char>) -> Seq<char> {
    Seq::new(s.len(), |i: int| ascii_lower(s[i]))
}

/// The lower-cased extension of a path.
pub open spec fn lower_extension(path: Seq<char>) -> Option<Seq<char>> {
    match path_extension(path) {
        Some(e) => Some(ascii_lower_all(e)),
        None => None,
    }
}

fn lower_char(c: char) -> (d: char)
    ensures
        d == ascii_lower(c),
{
    if 'A' <= c && c <= 'Z' {
        let b: u8 = (c as u8) + 32;
        assert(b as u32 == (c as u32) + 32);
        b as char
    } else {
        c
    }
}

/// The extension of `path` in ASCII lower case.
pub fn lowercase_extension(path: &str) -> (e: Option<Vec<char>>)
    ensures
        match e {
            Some(v) => lower_extension(path@) == Some(v@),
            None => lower_extension(path@) is None,
        },
{
    match extension_of(path) {
        None => None,
        Some(v) => Some(lower_all(&v)),
    }
}

/// Every character of `v` through [`ascii_lower`].
pub(crate) fn lower_all(v: &Vec<char>) -> (out: Vec<char>)
    ensures
        out@ == ascii_lower_all(v@),
{
    let mut out: Vec<char> = Vec::new();
    let n = v.len();
    let mut i: usize = 0;
    while i < n
        invariant
            n == v@.len(),
            0 <= i <= n,
            out@ == ascii_lower_all(v@).take(i as int),
        decreases n - i,
    {
        out.push(lower_char(v[i]));
        assert(out@ =~= ascii_lower_all(v@).take(i + 1));
        i = i + 1;
    }
    assert(out@ =~= ascii_lower_all(v@));
    out
}

/// Whether `v` holds exactly the characters of `s`.
pub fn same_chars(v: &Vec<char>, s: &str) -> (r: bool)
    ensures
        r == (v@ == s@),
{
    let w = chars_of(s);
    if v.len() != w.len() {
        return false;
    }
    let n = v.len();
    let mut i: usize = 0;
    while i < n
        invariant
            n == v@.len(),
            n == w@.len(),
            w@ == s@,
            0 <= i <= n,
            forall|j: int| 0 <= j < i ==> v@[j] == w@[j],
        decreases n - i,
    {
        if v[i] != w[i] {
            return false;
        }
        i = i + 1;
    }
    assert(v@ =~= w@);
    true
}

/// The codec a lower-case extension names.
pub open spec fn codec_for(e: Seq<char>) -> Codec {
    if e == "wav"@ || e == "wave"@ {
        Codec::Wav
    } else if e == "aif"@ || e == "aiff"@ || e == "aifc"@ {
        Codec::Aiff
    } else if e == "flac"@ {
        Codec::Flac
    } else if e == "mp3"@ {
        Codec::Mp3
    } else if e == "m4a"@ || e == "mp4"@ || e == "aac"@ {
        Codec::Aac
    } else if e == "alac"@ {
        Codec::Alac
    } else if e == "ogg"@ || e == "oga"@ {
        Codec::Vorbis
    } else if e == "opus"@ {
        Codec::Opus
    } else {
        Codec::Other
    }
}

/// The codec a path's name suggests.
pub open spec fn codec_for_path(path: Seq<char>) -> Codec {
    match lower_extension(path) {
        Some(e) => codec_for(e),
        None => Codec::Other,
    }
}

/// The extensions SoundCheck opens, lower case.
pub open spec fn is_audio_extension(e: Seq<char>) -> bool {
    e == "wav"@ || e == "wave"@ || e == "aif"@ || e == "aiff"@ || e == "aifc"@ || e == "flac"@
        || e == "mp3"@ || e == "m4a"@ || e == "mp4"@ || e == "aac"@ || e == "alac"@
        || e == "ogg"@ || e == "oga"@ || e == "opus"@
}

/// The short label the table shows for a codec.
pub open spec fn codec_label(c: Codec) -> Seq<char> {
    match c {
        Codec::Wav => "WAV"@,
        Codec::Aiff => "AIFF"@,
        Codec::Flac => "FLAC"@,
        Codec::Mp3 => "MP3"@,
        Codec::Aac => "AAC"@,
        Codec::Alac => "ALAC"@,
        Codec::Vorbis => "OGG"@,
        Codec::Opus => "OPUS"@,
        Codec::Other => "?"@,
    }
}

/// Whether a codec can be written; the others are analysed only.
pub open spec fn writable(c: Codec) -> bool {
    c == Codec::Wav || c == Codec::Aiff || c == Codec::Flac || c == Codec::Mp3
}

impl Default for Codec {
    /// Anything else.
    fn default() -> (c: Self)
        ensures
            c == Codec::Other,
    {
        Codec::Other
    }
}

impl Codec {
    /// The codec a file name suggests; `.m4a`/`.mp4` read as AAC until the stream says ALAC.
    pub fn from_path(path: &str) -> (c: Self)
        ensures
            c == codec_for_path(path@),
    {
        match lowercase_extension(path) {
            None => Codec::Other,
            Some(e) => {
                if same_chars(&e, "wav") || same_chars(&e, "wave") {
                    Codec::Wav
                } else if same_chars(&e, "aif") || same_chars(&e, "aiff") || same_chars(&e, "aifc") {
                    Codec::Aiff
                } else if same_chars(&e, "flac") {
                    Codec::Flac
                } else if same_chars(&e, "mp3") {
                    Codec::Mp3
                } else if same_chars(&e, "m4a") || same_chars(&e, "mp4") || same_chars(&e, "aac") {
                    Codec::Aac
                } else if same_chars(&e, "alac") {
                    Codec::Alac
                } else if same_chars(&e, "ogg") || same_chars(&e, "oga") {
                    Codec::Vorbis
                } else if same_chars(&e, "opus") {
                    Codec::Opus
                } else {
                    Codec::Other
                }
            },
        }
    }

    /// Whether this version can write this codec; the others are analysed only.
    pub fn is_writable(self) -> (r: bool)
        ensures
            r == writable(self),
    {
        match self {
            Codec::Wav | Codec::Aiff | Codec::Flac | Codec::Mp3 => true,
            _ => false,
        }
    }

    /// The short label the table shows.
    pub fn label(self) -> (s: &'static str)
        ensures
            s@ == codec_label(self),
    {
        match self {
            Codec::Wav => "WAV",
            Codec::Aiff => "AIFF",
            Codec::Flac => "FLAC",
            Codec::Mp3 => "MP3",
            Codec::Aac => "AAC",
            Codec::Alac => "ALAC",
            Codec::Vorbis => "OGG",
            Codec::Opus => "OPUS",
            Codec::Other => "?",
        }
    }
}

/// Whether a path names a file SoundCheck opens: its extension, in any case, is one of
/// `wav wave aif aiff aifc flac mp3 m4a mp4 aac alac ogg oga opus`.
pub fn is_audio(path: &str) -> (r: bool)
    ensures
        r == (lower_extension(path@) matches Some(e) && is_audio_extension(e)),
{
    match lowercase_extension(path) {
        None => false,
        Some(e) => {
            same_chars(&e, "wav") || same_chars(&e, "wave") || same_chars(&e, "aif")
                || same_chars(&e, "aiff") || same_chars(&e, "aifc") || same_chars(&e, "flac")
                || same_chars(&e, "mp3") || same_chars(&e, "m4a") || same_chars(&e, "mp4")
                || same_chars(&e, "aac") || same_chars(&e, "alac") || same_chars(&e, "ogg")
                || same_chars(&e, "oga") || same_chars(&e, "opus")
        },
    }
}

/// Every file SoundCheck opens by name is one whose codec it recognises.
pub proof fn audio_files_have_a_known_codec(path: Seq<char>)
    requires
        lower_extension(path) matches Some(e) && is_audio_extension(e),
    ensures
        codec_for_path(path) != Codec::Other,
{
}

/// Two texts of different lengths, or with different characters at `i`, differ.
proof fn lemma_differ(a: Seq<char>, b: Seq<char>, i: int)
    requires
        a.len() != b.len() || (0 <= i < a.len() && i < b.len() && a[i] != b[i]),
    ensures
        a != b,
{
}

/// Each audio extension, in any case, names its own codec: `wav`/`wave` WAV, `aif`/`aiff`/`aifc`
/// AIFF, `flac` FLAC, `mp3` MP3, `m4a`/`mp4`/`aac` AAC, `alac` ALAC, `ogg`/`oga` Vorbis, `opus`
/// Opus; any other extension, or none, gives `Other`. Of these, exactly WAV, AIFF, FLAC and MP3
/// are written.
pub proof fn each_extension_names_its_codec(path: Seq<char>, c: Codec)
    ensures
        lower_extension(path) == Some("wav"@) ==> codec_for_path(path) == Codec::Wav,
        lower_extension(path) == Some("wave"@) ==> codec_for_path(path) == Codec::Wav,
        lower_extension(path) == Some("aif"@) ==> codec_for_path(path) == Codec::Aiff,
        lower_extension(path) == Some("aiff"@) ==> codec_for_path(path) == Codec::Aiff,
        lower_extension(path) == Some("aifc"@) ==> codec_for_path(path) == Codec::Aiff,
        lower_extension(path) == Some("flac"@) ==> codec_for_path(path) == Codec::Flac,
        lower_extension(path) == Some("mp3"@) ==> codec_for_path(path) == Codec::Mp3,
        lower_extension(path) == Some("m4a"@) ==> codec_for_path(path) == Codec::Aac,
        lower_extension(path) == Some("mp4"@) ==> codec_for_path(path) == Codec::Aac,
        lower_extension(path) == Some("aac"@) ==> codec_for_path(path) == Codec::Aac,
        lower_extension(path) == Some("alac"@) ==> codec_for_path(path) == Codec::Alac,
        lower_extension(path) == Some("ogg"@) ==> codec_for_path(path) == Codec::Vorbis,
        lower_extension(path) == Some("oga"@) ==> codec_for_path(path) == Codec::Vorbis,
        lower_extension(path) == Some("opus"@) ==> codec_for_path(path) == Codec::Opus,
        lower_extension(path) is None ==> codec_for_path(path) == Codec::Other,
        (lower_extension(path) matches Some(e) && e != "wav"@ && e != "wave"@ && e != "aif"@ && e != "aiff"@ && e != "aifc"@ && e != "flac"@ && e != "mp3"@ && e != "m4a"@ && e != "mp4"@ && e != "aac"@ && e != "alac"@ && e != "ogg"@ && e != "oga"@ && e != "opus"@) ==> codec_for_path(path) == Codec::Other,
        writable(c) <==> (c == Codec::Wav || c == Codec::Aiff || c == Codec::Flac || c == Codec::Mp3),
{
    reveal_strlit("wav");
    reveal_strlit("wave");
    reveal_strlit("aif");
    reveal_strlit("aiff");
    reveal_strlit("aifc");
    reveal_strlit("flac");
    reveal_strlit("mp3");
    reveal_strlit("m4a");
    reveal_strlit("mp4");
    reveal_strlit("aac");
    reveal_strlit("alac");
    reveal_strlit("ogg");
    reveal_strlit("oga");
    reveal_strlit("opus");
    lemma_differ("aif"@, "wav"@, 0);
    lemma_differ("aif"@, "wave"@, 0);
    lemma_differ("aiff"@, "wav"@, 0);
    lemma_differ("aiff"@, "wave"@, 0);
    lemma_differ("aifc"@, "wav"@, 0);
    lemma_differ("aifc"@, "wave"@, 0);
    lemma_differ("flac"@, "wav"@, 0);
    lemma_differ("flac"@, "wave"@, 0);
    lemma_differ("flac"@, "aif"@, 0);
    lemma_differ("flac"@, "aiff"@, 0);
    lemma_differ("flac"@, "aifc"@, 0);
    lemma_differ("mp3"@, "wav"@, 0);
    lemma_differ("mp3"@, "wave"@, 0);
    lemma_differ("mp3"@, "aif"@, 0);
    lemma_differ("mp3"@, "aiff"@, 0);
    lemma_differ("mp3"@, "aifc"@, 0);
    lemma_differ("mp3"@, "flac"@, 0);
    lemma_differ("m4a"@, "wav"@, 0);
    lemma_differ("m4a"@, "wave"@, 0);
    lemma_differ("m4a"@, "aif"@, 0);
    lemma_differ("m4a"@, "aiff"@, 0);
    lemma_differ("m4a"@, "aifc"@, 0);
    lemma_differ("m4a"@, "flac"@, 0);
    lemma_differ("m4a"@, "mp3"@, 1);
    lemma_differ("mp4"@, "wav"@, 0);
    lemma_differ("mp4"@, "wave"@, 0);
    lemma_differ("mp4"@, "aif"@, 0);
    lemma_differ("mp4"@, "aiff"@, 0);
    lemma_differ("mp4"@, "aifc"@, 0);
    lemma_differ("mp4"@, "flac"@, 0);
    lemma_differ("mp4"@, "mp3"@, 2);
    lemma_differ("aac"@, "wav"@, 0);
    lemma_differ("aac"@, "wave"@, 0);
    lemma_differ("aac"@, "aif"@, 1);
    lemma_differ("aac"@, "aiff"@, 0);
    lemma_differ("aac"@, "aifc"@, 0);
    lemma_differ("aac"@, "flac"@, 0);
    lemma_differ("aac"@, "mp3"@, 0);
    lemma_differ("alac"@, "wav"@, 0);
    lemma_differ("alac"@, "wave"@, 0);
    lemma_differ("alac"@, "aif"@, 0);
    lemma_differ("alac"@, "aiff"@, 1);
    lemma_differ("alac"@, "aifc"@, 1);
    lemma_differ("alac"@, "flac"@, 0);
    lemma_differ("alac"@, "mp3"@, 0);
    lemma_differ("alac"@, "m4a"@, 0);
    lemma_differ("alac"@, "mp4"@, 0);
    lemma_differ("alac"@, "aac"@, 0);
    lemma_differ("ogg"@, "wav"@, 0);
    lemma_differ("ogg"@, "wave"@, 0);
    lemma_differ("ogg"@, "aif"@, 0);
    lemma_differ("ogg"@, "aiff"@, 0);
    lemma_differ("ogg"@, "aifc"@, 0);
    lemma_differ("ogg"@, "flac"@, 0);
    lemma_differ("ogg"@, "mp3"@, 0);
    lemma_differ("ogg"@, "m4a"@, 0);
    lemma_differ("ogg"@, "mp4"@, 0);
    lemma_differ("ogg"@, "aac"@, 0);
    lemma_differ("ogg"@, "alac"@, 0);
    lemma_differ("oga"@, "wav"@, 0);
    lemma_differ("oga"@, "wave"@, 0);
    lemma_differ("oga"@, "aif"@, 0);
    lemma_differ("oga"@, "aiff"@, 0);
    lemma_differ("oga"@, "aifc"@, 0);
    lemma_differ("oga"@, "flac"@, 0);
    lemma_differ("oga"@, "mp3"@, 0);
    lemma_differ("oga"@, "m4a"@, 0);
    lemma_differ("oga"@, "mp4"@, 0);
    lemma_differ("oga"@, "aac"@, 0);
    lemma_differ("oga"@, "alac"@, 0);
    lemma_differ("opus"@, "wav"@, 0);
    lemma_differ("opus"@, "wave"@, 0);
    lemma_differ("opus"@, "aif"@, 0);
    lemma_differ("opus"@, "aiff"@, 0);
    lemma_differ("opus"@, "aifc"@, 0);
    lemma_differ("opus"@, "flac"@, 0);
    lemma_differ("opus"@, "mp3"@, 0);
    lemma_differ("opus"@, "m4a"@, 0);
    lemma_differ("opus"@, "mp4"@, 0);
    lemma_differ("opus"@, "aac"@, 0);
    lemma_differ("opus"@, "alac"@, 0);
    lemma_differ("opus"@, "ogg"@, 0);
    lemma_differ("opus"@, "oga"@, 0);
}

} // verus!
