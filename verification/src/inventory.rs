//! Classification of what the census finds: the three finding kinds, the
//! per-file classification rules, and the hints that explain why a blob is
//! probably there.

use vstd::prelude::*;
use crate::text::{chars_of, eq_lit, starts_with_at, vv};
use crate::paths::{extension_chars, extension_spec, rel_slash_spec};
use crate::sniff::{
    arch_spec, describe_spec, detect, detect_spec, native_spec, opt_format, ElfType, Format, FormatV,
    MachType,
};
use crate::provenance::{
    contains, contains_str, ends_with, ends_with_str, facts_view, inner_spec, opt_str_view, resolve,
    resolve_spec, strs_view, DirFacts, FactsV, ProvV, Provenance,
};
use crate::util::{opt_view, rel_slash};
use crate::order::{is_perm, lemma_lex_irrefl, lemma_lex_trans, lex_lt, sort_order, sorted_stable};

verus! {

/// Coarse classification of a finding.
#[derive(Debug, Clone, Copy, PartialEq, Eq, Structural)]
pub enum Kind {
    /// Executable machine or byte code: ELF, Mach-O, PE, Wasm, class, ar.
    Native,
    /// A container format that can smuggle binaries: zip, gzip, tar, …
    Archive,
    /// Unrecognized high-entropy data.
    Opaque,
}

/// The lock-file spelling of a kind.
pub open spec fn kind_str(k: Kind) -> Seq<char> {
    match k {
        Kind::Native => "native"@,
        Kind::Archive => "archive"@,
        Kind::Opaque => "opaque"@,
    }
}

/// The kind a lock-file spelling names, if any.
pub open spec fn kind_parse_spec(s: Seq<char>) -> Option<Kind> {
    if s == "native"@ {
        Some(Kind::Native)
    } else if s == "archive"@ {
        Some(Kind::Archive)
    } else if s == "opaque"@ {
        Some(Kind::Opaque)
    } else {
        None
    }
}

impl Kind {
    /// The lock-file spelling: `native`, `archive` or `opaque`.
    pub fn as_str(&self) -> (r: &'static str)
        ensures
            r@ == kind_str(*self),
    {
        match self {
            Kind::Native => "native",
            Kind::Archive => "archive",
            Kind::Opaque => "opaque",
        }
    }

    /// Read a lock-file spelling back.
    pub fn parse(s: &str) -> (r: Option<Kind>)
        ensures
            r == kind_parse_spec(s@),
    {
        let v = chars_of(s);
        Self::parse_chars(&v)
    }

    /// Read a lock-file spelling held as characters.
    pub fn parse_chars(v: &[char]) -> (r: Option<Kind>)
        ensures
            r == kind_parse_spec(v@),
    {
        if eq_lit(v, "native") {
            Some(Kind::Native)
        } else if eq_lit(v, "archive") {
            Some(Kind::Archive)
        } else if eq_lit(v, "opaque") {
            Some(Kind::Opaque)
        } else {
            None
        }
    }
}

/// The three spellings, character by character.
pub proof fn lemma_kind_strs()
    ensures
        "native"@ == seq!['n', 'a', 't', 'i', 'v', 'e'],
        "archive"@ == seq!['a', 'r', 'c', 'h', 'i', 'v', 'e'],
        "opaque"@ == seq!['o', 'p', 'a', 'q', 'u', 'e'],
{
    reveal_strlit("native");
    reveal_strlit("archive");
    reveal_strlit("opaque");
    assert("native"@ =~= seq!['n', 'a', 't', 'i', 'v', 'e']);
    assert("archive"@ =~= seq!['a', 'r', 'c', 'h', 'i', 'v', 'e']);
    assert("opaque"@ =~= seq!['o', 'p', 'a', 'q', 'u', 'e']);
}

/// Reading back the spelling of a kind gives that kind.
pub proof fn law_kind_round_trip(k: Kind)
    ensures
        kind_parse_spec(kind_str(k)) == Some(k),
{
    lemma_kind_strs();
    assert("native"@ != "archive"@) by {
        assert("native"@.len() != "archive"@.len());
    }
    assert("native"@ != "opaque"@) by {
        assert("native"@[0] != "opaque"@[0]);
    }
    assert("archive"@ != "opaque"@) by {
        assert("archive"@.len() != "opaque"@.len());
    }
}

// ---------------------------------------------------------------------
// Classification
// ---------------------------------------------------------------------

/// Extensions that are high-entropy by nature but not executable content:
/// images, fonts, audio/video, documents.
pub open spec fn is_media_ext(e: Seq<char>) -> bool {
    e == "png"@
    || e == "jpg"@
    || e == "jpeg"@
    || e == "gif"@
    || e == "webp"@
    || e == "avif"@
    || e == "ico"@
    || e == "icns"@
    || e == "bmp"@
    || e == "tif"@
    || e == "tiff"@
    || e == "heic"@
    || e == "woff"@
    || e == "woff2"@
    || e == "ttf"@
    || e == "otf"@
    || e == "eot"@
    || e == "mp3"@
    || e == "mp4"@
    || e == "m4a"@
    || e == "ogg"@
    || e == "wav"@
    || e == "webm"@
    || e == "flac"@
    || e == "mov"@
    || e == "pdf"@
}

fn media_ext(e: &[char]) -> (r: bool)
    ensures
        r == is_media_ext(e@),
{
    eq_lit(e, "png")
        || eq_lit(e, "jpg")
        || eq_lit(e, "jpeg")
        || eq_lit(e, "gif")
        || eq_lit(e, "webp")
        || eq_lit(e, "avif")
        || eq_lit(e, "ico")
        || eq_lit(e, "icns")
        || eq_lit(e, "bmp")
        || eq_lit(e, "tif")
        || eq_lit(e, "tiff")
        || eq_lit(e, "heic")
        || eq_lit(e, "woff")
        || eq_lit(e, "woff2")
        || eq_lit(e, "ttf")
        || eq_lit(e, "otf")
        || eq_lit(e, "eot")
        || eq_lit(e, "mp3")
        || eq_lit(e, "mp4")
        || eq_lit(e, "m4a")
        || eq_lit(e, "ogg")
        || eq_lit(e, "wav")
        || eq_lit(e, "webm")
        || eq_lit(e, "flac")
        || eq_lit(e, "mov")
        || eq_lit(e, "pdf")
}

/// The path's lowercased extension is a media one.
pub open spec fn media_path(path: Seq<char>) -> bool {
    match extension_spec(path) {
        Some(e) => is_media_ext(e),
        None => false,
    }
}

/// Whether the path has a media extension (skipped for opaque findings
/// unless `--all` is given).
pub fn is_media_path(path: &str) -> (r: bool)
    ensures
        r == media_path(path@),
{
    let pc = chars_of(path);
    match extension_chars(&pc) {
        Some(e) => media_ext(&e),
        None => false,
    }
}

/// The kind a recognized format gives a finding.
pub open spec fn format_kind(f: FormatV) -> Kind {
    if native_spec(f) {
        Kind::Native
    } else {
        Kind::Archive
    }
}

/// The kind a recognized format gives a finding.
pub fn kind_of_format(f: &Format) -> (k: Kind)
    ensures
        k == format_kind(f@),
{
    if f.is_native() {
        Kind::Native
    } else {
        Kind::Archive
    }
}

/// Whether a file is a finding candidate, and as what: a recognized
/// format is native or an archive (archives dropped when `skip_archives`);
/// an unrecognized file is an opaque candidate when it is at least
/// `min_blob` bytes and, unless `include_media`, not named like media.
/// Whether an opaque candidate is kept is decided by its entropy.
pub open spec fn classify_spec(
    header: Seq<u8>,
    size: u64,
    path: Seq<char>,
    min_blob: u64,
    include_media: bool,
    skip_archives: bool,
) -> Option<(Kind, Option<FormatV>)> {
    match detect_spec(header, size) {
        Some(f) => if format_kind(f) == Kind::Archive && skip_archives {
            None
        } else {
            Some((format_kind(f), Some(f)))
        },
        None => if size < min_blob {
            None
        } else if !include_media && media_path(path) {
            None
        } else {
            Some((Kind::Opaque, None))
        },
    }
}

/// Classify one file from its leading bytes, size and path.
pub fn classify(
    header: &[u8],
    size: u64,
    path: &str,
    min_blob: u64,
    include_media: bool,
    skip_archives: bool,
) -> (r: Option<(Kind, Option<Format>)>)
    ensures
        match r {
            Some((k, f)) => classify_spec(header@, size, path@, min_blob, include_media, skip_archives)
                == Some((k, opt_format(f))),
            None => classify_spec(header@, size, path@, min_blob, include_media, skip_archives) is None,
        },
{
    match detect(header, size) {
        Some(format) => {
            let kind = kind_of_format(&format);
            if kind == Kind::Archive && skip_archives {
                return None;
            }
            Some((kind, Some(format)))
        },
        None => {
            if size < min_blob {
                return None;
            }
            if !include_media && is_media_path(path) {
                return None;
            }
            Some((Kind::Opaque, None))
        },
    }
}

/// A recognized format is reported whatever the file is named and however
/// small it is: the media-extension exemption and the size floor apply
/// only to unrecognized data, so a "PNG" that is really an ELF is still
/// found.
pub proof fn law_magic_beats_extension(
    header: Seq<u8>,
    size: u64,
    path1: Seq<char>,
    path2: Seq<char>,
    min_blob1: u64,
    min_blob2: u64,
    media1: bool,
    media2: bool,
    skip_archives: bool,
)
    requires
        detect_spec(header, size) is Some,
    ensures
        classify_spec(header, size, path1, min_blob1, media1, skip_archives) == classify_spec(
            header,
            size,
            path2,
            min_blob2,
            media2,
            skip_archives,
        ),
        format_kind(detect_spec(header, size)->Some_0) == Kind::Native ==> classify_spec(
            header,
            size,
            path1,
            min_blob1,
            media1,
            skip_archives,
        ) == Some((Kind::Native, detect_spec(header, size))),
{
}

/// The extensions of images, fonts, audio and video, and PDF documents,
/// in lowercase.
pub open spec fn named_like_media(e: Seq<char>) -> bool {
    "png"@ == e
        || "jpg"@ == e
        || "jpeg"@ == e
        || "gif"@ == e
        || "webp"@ == e
        || "avif"@ == e
        || "ico"@ == e
        || "icns"@ == e
        || "bmp"@ == e
        || "tif"@ == e
        || "tiff"@ == e
        || "heic"@ == e
        || "woff"@ == e
        || "woff2"@ == e
        || "ttf"@ == e
        || "otf"@ == e
        || "eot"@ == e
        || "mp3"@ == e
        || "mp4"@ == e
        || "m4a"@ == e
        || "ogg"@ == e
        || "wav"@ == e
        || "webm"@ == e
        || "flac"@ == e
        || "mov"@ == e
        || "pdf"@ == e
}

/// Unrecognized data in a file with one of these extensions (in any case)
/// is never an opaque finding unless media is included; with media
/// included it is an opaque candidate once it reaches the size floor.
pub proof fn law_media_files_exempt_unless_included(
    header: Seq<u8>,
    size: u64,
    path: Seq<char>,
    min_blob: u64,
    include_media: bool,
    skip_archives: bool,
)
    requires
        detect_spec(header, size) is None,
        extension_spec(path) is Some,
        named_like_media(extension_spec(path)->Some_0),
    ensures
        !include_media ==> classify_spec(header, size, path, min_blob, include_media, skip_archives)
            is None,
        include_media && size >= min_blob ==> classify_spec(
            header,
            size,
            path,
            min_blob,
            include_media,
            skip_archives,
        ) == Some((Kind::Opaque, None::<FormatV>)),
{
}

// ---------------------------------------------------------------------
// Hints
// ---------------------------------------------------------------------

/// A one-element list when `c` holds, else an empty one.
pub open spec fn hint_if(c: bool, h: Seq<char>) -> Seq<Seq<char>> {
    if c {
        seq![h]
    } else {
        Seq::empty()
    }
}

/// Compiled Python extension formats: ELF shared objects, Mach-O dylibs
/// and bundles.
pub open spec fn python_ext_format(f: Option<FormatV>) -> bool {
    match f {
        Some(FormatV::Elf { etype: ElfType::SharedObject, .. }) => true,
        Some(FormatV::MachO { filetype: MachType::Dylib, .. }) => true,
        Some(FormatV::MachO { filetype: MachType::Bundle, .. }) => true,
        _ => false,
    }
}

/// The hint a zip archive's extension gives.
pub open spec fn zip_hint(ext: Seq<char>) -> Seq<Seq<char>> {
    if ext == "jar"@ || ext == "war"@ {
        seq!["Java archive — contains compiled bytecode"@]
    } else if ext == "whl"@ {
        seq!["Python wheel — may contain compiled extensions"@]
    } else if ext == "egg"@ {
        seq!["Python egg — may contain compiled extensions"@]
    } else if ext == "apk"@ || ext == "aar"@ {
        seq!["Android archive — contains compiled code"@]
    } else {
        Seq::empty()
    }
}

/// Compressed or tar data.
pub open spec fn compressed_format(f: Option<FormatV>) -> bool {
    match f {
        Some(FormatV::Gzip) | Some(FormatV::Xz) | Some(FormatV::Zstd) | Some(FormatV::Bzip2) | Some(
            FormatV::Tar,
        ) => true,
        _ => false,
    }
}

/// Hints from where the blob sits: a prebuilds directory, node-gyp output,
/// a `.node` addon.
pub open spec fn path_hints(inn: Seq<char>, ext: Seq<char>) -> Seq<Seq<char>> {
    hint_if(
        (inn.len() >= 10 && inn.take(10) == "prebuilds/"@) || contains(inn, "/prebuilds/"@),
        "prebuilt binary shipped inside the package (prebuilds/)"@,
    ) + hint_if(
        contains(inn, "build/Release/"@),
        "node-gyp build output (build/Release/) — compiled on this machine at install time"@,
    ) + hint_if(ext == "node"@, "Node.js native addon — loaded straight into the node process"@)
}

/// Hints from the format: Python extensions, object files, zip-based
/// packages, bundled tarballs.
pub open spec fn format_hints(
    format: Option<FormatV>,
    eco: Option<Seq<char>>,
    ext: Seq<char>,
    inn: Seq<char>,
) -> Seq<Seq<char>> {
    hint_if(
        eco == Some("pip"@) && python_ext_format(format),
        "compiled Python extension module — imported like plain Python"@,
    ) + hint_if(
        format matches Some(FormatV::Elf { etype: ElfType::Relocatable, .. }),
        "precompiled object file — linked into builds without compilation"@,
    ) + (if format == Some(FormatV::Zip) {
        zip_hint(ext)
    } else {
        Seq::empty()
    }) + hint_if(
        compressed_format(format) && (contains(inn, ".tar."@) || ends_with(inn, ".tgz"@) || format
            == Some(FormatV::Tar)),
        "bundled tarball — may unpack binaries at install time"@,
    )
}

/// Hints on unrecognized content and on a missing package.
pub open spec fn tail_hints(kind: Kind, random: bool, unowned: bool) -> Seq<Seq<char>> {
    (if kind == Kind::Opaque {
        if random {
            seq![
                "no known format; content is statistically random (packed, encrypted or compressed)"@,
            ]
        } else {
            seq!["no known format, but entropy is low — a scan would not flag this file"@]
        }
    } else {
        Seq::empty()
    }) + hint_if(unowned, "no package manifest found above this file"@)
}

/// Provenance- and path-derived hints that tell the auditor why a blob is
/// probably there, most specific first. `inner` defaults to `rel`; the
/// extension is taken from `rel`. `random` says whether the measured
/// entropy reached the opaque threshold.
pub open spec fn hints_spec(
    rel: Seq<char>,
    kind: Kind,
    format: Option<FormatV>,
    prov: ProvV,
    inner: Option<Seq<char>>,
    random: bool,
) -> Seq<Seq<char>> {
    let inn = match inner {
        Some(i) => i,
        None => rel,
    };
    let ext = match extension_spec(rel) {
        Some(e) => e,
        None => Seq::<char>::empty(),
    };
    path_hints(inn, ext) + format_hints(format, prov.ecosystem, ext, inn) + tail_hints(
        kind,
        random,
        prov.package is None,
    )
}

fn push_hint(hs: &mut Vec<String>, h: &str)
    ensures
        strs_view(final(hs)@) == strs_view(old(hs)@).push(h@),
{
    hs.push(String::from_str(h));
    assert(strs_view(hs@) =~= strs_view(old(hs)@).push(h@));
}

fn eco_is_pip(e: Option<&'static str>) -> (r: bool)
    ensures
        r == (opt_str_view(e) == Some("pip"@)),
{
    match e {
        Some(x) => {
            let v = chars_of(x);
            eq_lit(&v, "pip")
        },
        None => false,
    }
}

fn hints_zip(hs: &mut Vec<String>, ext: &[char])
    ensures
        strs_view(final(hs)@) == strs_view(old(hs)@) + zip_hint(ext@),
{
    if eq_lit(ext, "jar") || eq_lit(ext, "war") {
        push_hint(hs, "Java archive — contains compiled bytecode");
    } else if eq_lit(ext, "whl") {
        push_hint(hs, "Python wheel — may contain compiled extensions");
    } else if eq_lit(ext, "egg") {
        push_hint(hs, "Python egg — may contain compiled extensions");
    } else if eq_lit(ext, "apk") || eq_lit(ext, "aar") {
        push_hint(hs, "Android archive — contains compiled code");
    }
    assert(strs_view(final(hs)@) =~= strs_view(old(hs)@) + zip_hint(ext@));
}

fn add_path_hints(hs: &mut Vec<String>, inn: &[char], ext: &[char])
    ensures
        strs_view(final(hs)@) == strs_view(old(hs)@) + path_hints(inn@, ext@),
{
    let ghost h0 = strs_view(hs@);
    let pre = chars_of("prebuilds/");
    proof {
        reveal_strlit("prebuilds/");
    }
    assert(inn@.skip(0) == inn@);
    if (inn.len() >= 10 && starts_with_at(inn, 0, &pre)) || contains_str(inn, "/prebuilds/") {
        push_hint(hs, "prebuilt binary shipped inside the package (prebuilds/)");
    }
    if contains_str(inn, "build/Release/") {
        push_hint(
            hs,
            "node-gyp build output (build/Release/) — compiled on this machine at install time",
        );
    }
    if eq_lit(ext, "node") {
        push_hint(hs, "Node.js native addon — loaded straight into the node process");
    }
    assert(strs_view(hs@) =~= h0 + path_hints(inn@, ext@));
}

fn add_format_hints(
    hs: &mut Vec<String>,
    format: Option<&Format>,
    eco: Option<&'static str>,
    ext: &[char],
    inn: &[char],
)
    ensures
        strs_view(final(hs)@) == strs_view(old(hs)@) + format_hints(
            match format {
                Some(f) => Some(f@),
                None => None,
            },
            opt_str_view(eco),
            ext@,
            inn@,
        ),
{
    let ghost h0 = strs_view(hs@);
    let ghost fv = match format {
        Some(f) => Some(f@),
        None => None,
    };
    let pyext = match format {
        Some(Format::Elf { etype: ElfType::SharedObject, .. }) => true,
        Some(Format::MachO { filetype: MachType::Dylib, .. }) => true,
        Some(Format::MachO { filetype: MachType::Bundle, .. }) => true,
        _ => false,
    };
    if eco_is_pip(eco) && pyext {
        push_hint(hs, "compiled Python extension module — imported like plain Python");
    }
    let ghost h1 = strs_view(hs@);
    if let Some(Format::Elf { etype: ElfType::Relocatable, .. }) = format {
        push_hint(hs, "precompiled object file — linked into builds without compilation");
    }
    let ghost h2 = strs_view(hs@);
    let is_zip = match format {
        Some(Format::Zip) => true,
        _ => false,
    };
    if is_zip {
        hints_zip(hs, ext);
    }
    let ghost h3 = strs_view(hs@);
    let compressed = match format {
        Some(Format::Gzip) | Some(Format::Xz) | Some(Format::Zstd) | Some(Format::Bzip2) | Some(
            Format::Tar,
        ) => true,
        _ => false,
    };
    let is_tar = match format {
        Some(Format::Tar) => true,
        _ => false,
    };
    if compressed && (contains_str(inn, ".tar.") || ends_with_str(inn, ".tgz") || is_tar) {
        push_hint(hs, "bundled tarball — may unpack binaries at install time");
    }
    proof {
        assert(fv == Some(FormatV::Zip) <==> is_zip);
        assert(fv == Some(FormatV::Tar) <==> is_tar);
        assert(compressed == compressed_format(fv));
        assert(pyext == python_ext_format(fv));
        assert(strs_view(hs@) =~= h0 + format_hints(fv, opt_str_view(eco), ext@, inn@));
    }
}

fn add_tail_hints(hs: &mut Vec<String>, kind: Kind, random: bool, unowned: bool)
    ensures
        strs_view(final(hs)@) == strs_view(old(hs)@) + tail_hints(kind, random, unowned),
{
    let ghost h0 = strs_view(hs@);
    if kind == Kind::Opaque {
        if random {
            push_hint(
                hs,
                "no known format; content is statistically random (packed, encrypted or compressed)",
            );
        } else {
            push_hint(hs, "no known format, but entropy is low — a scan would not flag this file");
        }
    }
    if unowned {
        push_hint(hs, "no package manifest found above this file");
    }
    assert(strs_view(hs@) =~= h0 + tail_hints(kind, random, unowned));
}

/// Provenance- and path-derived hints that tell the auditor *why* this blob
/// is probably here. Ordered from most to least specific.
pub fn hints_for(
    rel: &str,
    kind: Kind,
    format: Option<&Format>,
    prov: &Provenance,
    inner: Option<&str>,
    random: bool,
) -> (r: Vec<String>)
    ensures
        strs_view(r@) == hints_spec(
            rel@,
            kind,
            match format {
                Some(f) => Some(f@),
                None => None,
            },
            prov@,
            match inner {
                Some(i) => Some(i@),
                None => None,
            },
            random,
        ),
{
    let inn = match inner {
        Some(i) => chars_of(i),
        None => chars_of(rel),
    };
    let rc = chars_of(rel);
    let ext: Vec<char> = match extension_chars(&rc) {
        Some(e) => e,
        None => Vec::new(),
    };
    let mut hs: Vec<String> = Vec::new();
    assert(strs_view(hs@) =~= Seq::<Seq<char>>::empty());
    add_path_hints(&mut hs, &inn, &ext);
    add_format_hints(&mut hs, format, prov.ecosystem, &ext, &inn);
    add_tail_hints(&mut hs, kind, random, prov.package.is_none());
    proof {
        let ghost fv = match format {
            Some(f) => Some(f@),
            None => None,
        };
        assert(strs_view(hs@) =~= path_hints(inn@, ext@) + format_hints(fv, prov@.ecosystem, ext@, inn@)
            + tail_hints(kind, random, prov@.package is None));
    }
    hs
}

// ---------------------------------------------------------------------
// Findings
// ---------------------------------------------------------------------

/// Measured entropy in bits per byte, as the reports print it: rounded to
/// two places (tables, `explain`) and to four (JSON).
pub struct EntropyText {
    pub two_places: String,
    pub four_places: String,
}

/// One inventoried blob.
pub struct Finding {
    pub rel: String,
    pub size: u64,
    pub kind: Kind,
    pub format: String,
    pub arch: Option<String>,
    pub entropy: EntropyText,
    pub sha256: String,
    pub provenance: Provenance,
    /// Path inside the owning package, when one was identified.
    pub inner: Option<String>,
    pub hints: Vec<String>,
}

/// The value of a [`Finding`].
pub struct FindingV {
    pub rel: Seq<char>,
    pub size: u64,
    pub kind: Kind,
    pub format: Seq<char>,
    pub arch: Option<Seq<char>>,
    pub entropy: (Seq<char>, Seq<char>),
    pub sha256: Seq<char>,
    pub provenance: ProvV,
    pub inner: Option<Seq<char>>,
    pub hints: Seq<Seq<char>>,
}

impl View for Finding {
    type V = FindingV;

    open spec fn view(&self) -> FindingV {
        FindingV {
            rel: self.rel@,
            size: self.size,
            kind: self.kind,
            format: self.format@,
            arch: opt_view(self.arch),
            entropy: (self.entropy.two_places@, self.entropy.four_places@),
            sha256: self.sha256@,
            provenance: self.provenance@,
            inner: opt_view(self.inner),
            hints: strs_view(self.hints@),
        }
    }
}

/// The values of a list of findings.
pub open spec fn findings_view(s: Seq<Finding>) -> Seq<FindingV> {
    s.map_values(|f: Finding| f@)
}

/// The finding for the file at `path` under `root`: its path relative to
/// the root, the format's description (`unknown` when unrecognized) and
/// architecture, the provenance that [`resolve`] gives, the path inside
/// the package and the hints.
pub open spec fn finding_spec(
    root: Seq<char>,
    path: Seq<char>,
    size: u64,
    kind: Kind,
    format: Option<FormatV>,
    sha256: Seq<char>,
    entropy: (Seq<char>, Seq<char>),
    random: bool,
    facts: Seq<FactsV>,
    rootf: FactsV,
    unknown: Seq<char>,
) -> FindingV {
    let rel = rel_slash_spec(root, path);
    let prov = resolve_spec(root, path, facts, rootf);
    let inner = inner_spec(prov, path);
    FindingV {
        rel,
        size,
        kind,
        format: match format {
            Some(f) => describe_spec(f),
            None => unknown,
        },
        arch: match format {
            Some(f) => arch_spec(f),
            None => None,
        },
        entropy,
        sha256,
        provenance: prov,
        inner,
        hints: hints_spec(rel, kind, format, prov, inner, random),
    }
}

fn build_finding(
    root: &str,
    path: &str,
    size: u64,
    kind: Kind,
    format: Option<Format>,
    sha256: String,
    entropy: EntropyText,
    random: bool,
    facts: &[DirFacts],
    root_facts: &DirFacts,
    unknown: &str,
) -> (f: Finding)
    ensures
        f@ == finding_spec(
            root@,
            path@,
            size,
            kind,
            opt_format(format),
            sha256@,
            (entropy.two_places@, entropy.four_places@),
            random,
            facts_view(facts@),
            root_facts@,
            unknown@,
        ),
{
    let rel = rel_slash(root, path);
    let provenance = resolve(root, path, facts, root_facts);
    let inner = provenance.inner(path);
    let hints = hints_for(
        rel.as_str(),
        kind,
        format.as_ref(),
        &provenance,
        match &inner {
            Some(i) => Some(i.as_str()),
            None => None,
        },
        random,
    );
    let (desc, arch) = match &format {
        Some(f) => (f.describe(), f.arch()),
        None => (String::from_str(unknown), None),
    };
    Finding {
        rel,
        size,
        kind,
        format: desc,
        arch,
        entropy,
        sha256,
        provenance,
        inner,
        hints,
    }
}

/// The kind `explain` gives a file: by its format, opaque when unrecognized.
pub open spec fn inspect_kind(format: Option<FormatV>) -> Kind {
    match format {
        Some(f) => format_kind(f),
        None => Kind::Opaque,
    }
}

/// The finding `explain` reports for one file, whatever its size or
/// entropy. `format` is what [`detect`] made of its header, `random`
/// whether its entropy reached the default threshold.
pub fn inspect_finding(
    root: &str,
    path: &str,
    size: u64,
    format: Option<Format>,
    sha256: String,
    entropy: EntropyText,
    random: bool,
    facts: &[DirFacts],
    root_facts: &DirFacts,
) -> (f: Finding)
    ensures
        f@ == finding_spec(
            root@,
            path@,
            size,
            inspect_kind(opt_format(format)),
            opt_format(format),
            sha256@,
            (entropy.two_places@, entropy.four_places@),
            random,
            facts_view(facts@),
            root_facts@,
            "unrecognized data"@,
        ),
{
    let kind = match &format {
        Some(f) => kind_of_format(f),
        None => Kind::Opaque,
    };
    build_finding(
        root,
        path,
        size,
        kind,
        format,
        sha256,
        entropy,
        random,
        facts,
        root_facts,
        "unrecognized data",
    )
}

// ---------------------------------------------------------------------
// The census
// ---------------------------------------------------------------------

/// The result of a scan.
pub struct Census {
    pub root: String,
    pub files_scanned: u64,
    pub findings: Vec<Finding>,
    pub warnings: Vec<String>,
}

/// The value of a [`Census`].
pub struct CensusV {
    pub root: Seq<char>,
    pub files_scanned: u64,
    pub findings: Seq<FindingV>,
    pub warnings: Seq<Seq<char>>,
}

impl View for Census {
    type V = CensusV;

    open spec fn view(&self) -> CensusV {
        CensusV {
            root: self.root@,
            files_scanned: self.files_scanned,
            findings: findings_view(self.findings@),
            warnings: strs_view(self.warnings@),
        }
    }
}

fn copy_opt(o: &Option<String>) -> (r: Option<String>)
    ensures
        opt_view(r) == opt_view(*o),
{
    match o {
        Some(s) => Some(s.clone()),
        None => None,
    }
}

fn copy_strs(v: &Vec<String>) -> (r: Vec<String>)
    ensures
        strs_view(r@) == strs_view(v@),
{
    let mut r: Vec<String> = Vec::new();
    let mut i: usize = 0;
    while i < v.len()
        invariant
            i <= v.len(),
            strs_view(r@) == strs_view(v@).take(i as int),
        decreases v.len() - i,
    {
        let c = v[i].clone();
        assert(c@ == v@[i as int]@);
        let ghost before = r@;
        r.push(c);
        assert(r@ == before.push(c));
        assert(strs_view(r@) =~= strs_view(before).push(c@));
        assert(strs_view(v@).take(i + 1) =~= strs_view(v@).take(i as int).push(v@[i as int]@));
        i = i + 1;
    }
    assert(strs_view(v@).take(v.len() as int) == strs_view(v@));
    r
}

fn copy_finding(f: &Finding) -> (r: Finding)
    ensures
        r@ == f@,
{
    Finding {
        rel: f.rel.clone(),
        size: f.size,
        kind: f.kind,
        format: f.format.clone(),
        arch: copy_opt(&f.arch),
        entropy: EntropyText {
            two_places: f.entropy.two_places.clone(),
            four_places: f.entropy.four_places.clone(),
        },
        sha256: f.sha256.clone(),
        provenance: Provenance {
            ecosystem: f.provenance.ecosystem,
            package: copy_opt(&f.provenance.package),
            version: copy_opt(&f.provenance.version),
            package_root: copy_opt(&f.provenance.package_root),
        },
        inner: copy_opt(&f.inner),
        hints: copy_strs(&f.hints),
    }
}

/// `sorted` holds the findings of `found`, ordered by relative path, those
/// with equal paths in the order they were found.
pub open spec fn sorted_by_rel(found: Seq<FindingV>, sorted: Seq<FindingV>) -> bool {
    found.len() <= usize::MAX && exists|p: Seq<usize>|
        {
            &&& is_perm(p, found.len())
            &&& sorted_stable(found.map_values(|f: FindingV| f.rel), p)
            &&& sorted.len() == found.len()
            &&& forall|i: int| 0 <= i < sorted.len() ==> #[trigger] sorted[i] == found[p[i] as int]
        }
}

fn sort_findings(found: &Vec<Finding>) -> (r: Vec<Finding>)
    ensures
        sorted_by_rel(findings_view(found@), findings_view(r@)),
{
    let ghost fv = findings_view(found@);
    let mut keys: Vec<Vec<char>> = Vec::new();
    let mut k: usize = 0;
    while k < found.len()
        invariant
            k <= found.len(),
            fv == findings_view(found@),
            keys.len() == k,
            forall|m: int| 0 <= m < k ==> #[trigger] keys@[m]@ == fv[m].rel,
        decreases found.len() - k,
    {
        keys.push(chars_of(found[k].rel.as_str()));
        k = k + 1;
    }
    let order = sort_order(&keys);
    assert(vv(keys@) =~= fv.map_values(|f: FindingV| f.rel));
    let mut r: Vec<Finding> = Vec::new();
    let mut m: usize = 0;
    while m < order.len()
        invariant
            m <= order.len(),
            order.len() == found.len(),
            fv == findings_view(found@),
            is_perm(order@, found.len() as nat),
            r.len() == m,
            forall|t: int| 0 <= t < m ==> #[trigger] r@[t]@ == fv[order@[t] as int],
        decreases order.len() - m,
    {
        let f = copy_finding(&found[order[m]]);
        r.push(f);
        m = m + 1;
    }
    assert(findings_view(r@).len() == fv.len());
    assert(forall|i: int| 0 <= i < r@.len() ==> #[trigger] findings_view(r@)[i] == fv[order@[i] as int]);
    r
}

/// A scan in progress: what the walk has found so far, and the rules that
/// decide what counts.
pub struct Scan {
    pub root: String,
    pub min_blob: u64,
    pub include_media: bool,
    pub skip_archives: bool,
    pub files_scanned: u64,
    pub findings: Vec<Finding>,
    pub warnings: Vec<String>,
}

/// The value of a [`Scan`].
pub struct ScanV {
    pub root: Seq<char>,
    pub min_blob: u64,
    pub include_media: bool,
    pub skip_archives: bool,
    pub files_scanned: u64,
    pub findings: Seq<FindingV>,
    pub warnings: Seq<Seq<char>>,
}

impl View for Scan {
    type V = ScanV;

    open spec fn view(&self) -> ScanV {
        ScanV {
            root: self.root@,
            min_blob: self.min_blob,
            include_media: self.include_media,
            skip_archives: self.skip_archives,
            files_scanned: self.files_scanned,
            findings: findings_view(self.findings@),
            warnings: strs_view(self.warnings@),
        }
    }
}

impl Scan {
    /// A scan of `root` that has seen nothing yet. Unrecognized files under
    /// `min_blob` bytes are never opaque findings; media extensions are
    /// considered only with `include_media`; archives are dropped with
    /// `skip_archives`.
    pub fn new(root: &str, min_blob: u64, include_media: bool, skip_archives: bool) -> (s: Scan)
        ensures
            s@ == (ScanV {
                root: root@,
                min_blob,
                include_media,
                skip_archives,
                files_scanned: 0,
                findings: Seq::empty(),
                warnings: Seq::empty(),
            }),
    {
        let s = Scan {
            root: String::from_str(root),
            min_blob,
            include_media,
            skip_archives,
            files_scanned: 0,
            findings: Vec::new(),
            warnings: Vec::new(),
        };
        assert(findings_view(s.findings@) =~= Seq::<FindingV>::empty());
        assert(strs_view(s.warnings@) =~= Seq::<Seq<char>>::empty());
        s
    }

    /// Files counted so far.
    pub fn files_scanned(&self) -> (n: u64)
        ensures
            n == self@.files_scanned,
    {
        self.files_scanned
    }

    /// Counts a regular file of `size` bytes; says whether it needs to be
    /// looked at (empty files never are findings).
    pub fn count_file(&mut self, size: u64) -> (look: bool)
        requires
            old(self)@.files_scanned < u64::MAX,
        ensures
            final(self)@ == (ScanV { files_scanned: (old(self)@.files_scanned + 1) as u64, ..old(self)@ }),
            look == (size != 0),
    {
        self.files_scanned = self.files_scanned + 1;
        size != 0
    }

    /// Records a problem met during the walk.
    pub fn warn(&mut self, w: String)
        ensures
            final(self)@ == (ScanV { warnings: old(self)@.warnings.push(w@), ..old(self)@ }),
    {
        self.warnings.push(w);
        assert(strs_view(self.warnings@) =~= strs_view(old(self).warnings@).push(w@));
    }

    /// How this scan classifies a file from its leading bytes (see
    /// [`classify`]).
    pub fn classify_header(&self, header: &[u8], size: u64, path: &str) -> (r: Option<(Kind, Option<Format>)>)
        ensures
            match r {
                Some((k, f)) => classify_spec(header@, size, path@, self@.min_blob, self@.include_media, self@.skip_archives)
                    == Some((k, opt_format(f))),
                None => classify_spec(header@, size, path@, self@.min_blob, self@.include_media, self@.skip_archives) is None,
            },
    {
        classify(header, size, path, self.min_blob, self.include_media, self.skip_archives)
    }

    /// Records a classified file once hashed and measured: an opaque
    /// candidate whose entropy did not reach the threshold (`random` false)
    /// is dropped, anything else becomes a finding. The file is not empty,
    /// and `kind` and `format` are what this scan's classification of its
    /// `header` gave.
    pub fn add(
        &mut self,
        path: &str,
        size: u64,
        header: &[u8],
        kind: Kind,
        format: Option<Format>,
        sha256: String,
        entropy: EntropyText,
        random: bool,
        facts: &[DirFacts],
        root_facts: &DirFacts,
    )
        requires
            size != 0,
            classify_spec(
                header@,
                size,
                path@,
                old(self)@.min_blob,
                old(self)@.include_media,
                old(self)@.skip_archives,
            ) == Some((kind, opt_format(format))),
        ensures
            kind == Kind::Opaque && !random ==> final(self)@ == old(self)@,
            !(kind == Kind::Opaque && !random) ==> final(self)@ == (ScanV {
                findings: old(self)@.findings.push(
                    finding_spec(
                        old(self)@.root,
                        path@,
                        size,
                        kind,
                        opt_format(format),
                        sha256@,
                        (entropy.two_places@, entropy.four_places@),
                        random,
                        facts_view(facts@),
                        root_facts@,
                        "high-entropy data"@,
                    ),
                ),
                ..old(self)@
            }),
    {
        if kind == Kind::Opaque && !random {
            return;
        }
        let f = build_finding(
            self.root.as_str(),
            path,
            size,
            kind,
            format,
            sha256,
            entropy,
            random,
            facts,
            root_facts,
            "high-entropy data",
        );
        self.findings.push(f);
        assert(findings_view(self.findings@) =~= findings_view(old(self).findings@).push(f@));
    }

    /// The census: findings ordered by relative path.
    pub fn finish(self) -> (c: Census)
        ensures
            c@.root == self@.root,
            c@.files_scanned == self@.files_scanned,
            c@.warnings == self@.warnings,
            sorted_by_rel(self@.findings, c@.findings),
    {
        let findings = sort_findings(&self.findings);
        Census { root: self.root, files_scanned: self.files_scanned, findings, warnings: self.warnings }
    }
}

// ---------------------------------------------------------------------
// The census order is canonical
// ---------------------------------------------------------------------

/// Findings strictly ascending by relative path.
pub open spec fn rel_ascending(s: Seq<FindingV>) -> bool {
    forall|i: int, j: int| 0 <= i < j < s.len() ==> lex_lt(#[trigger] s[i].rel, #[trigger] s[j].rel)
}

/// No two findings share a relative path.
pub open spec fn rels_distinct(s: Seq<FindingV>) -> bool {
    forall|i: int, j: int| 0 <= i < j < s.len() ==> (#[trigger] s[i]).rel != (#[trigger] s[j]).rel
}

proof fn lemma_rel_ascending_unique(s1: Seq<FindingV>, s2: Seq<FindingV>)
    requires
        rel_ascending(s1),
        rel_ascending(s2),
        forall|x: FindingV| s1.contains(x) <==> s2.contains(x),
    ensures
        s1 == s2,
    decreases s1.len() + s2.len(),
{
    if s1.len() == 0 {
        if s2.len() > 0 {
            assert(s2.contains(s2[0]));
        }
        assert(s2.len() == 0);
    } else if s2.len() == 0 {
        assert(s1.contains(s1[0]));
    } else {
        assert(s1.contains(s1[0]));
        let k = choose|k: int| 0 <= k < s2.len() && s2[k] == s1[0];
        assert(s2.contains(s2[0]));
        let m = choose|m: int| 0 <= m < s1.len() && s1[m] == s2[0];
        if k > 0 {
            assert(lex_lt(s2[0].rel, s2[k].rel));
            if m > 0 {
                assert(lex_lt(s1[0].rel, s1[m].rel));
                lemma_lex_trans(s1[0].rel, s2[0].rel, s1[0].rel);
            }
            lemma_lex_irrefl(s1[0].rel);
        }
        assert(s1[0] == s2[0]);
        let t1 = s1.drop_first();
        let t2 = s2.drop_first();
        assert forall|x: FindingV| t1.contains(x) implies t2.contains(x) by {
            let i = choose|i: int| 0 <= i < t1.len() && t1[i] == x;
            assert(s1.contains(x));
            let j = choose|j: int| 0 <= j < s2.len() && s2[j] == x;
            if j == 0 {
                assert(lex_lt(s1[0].rel, s1[i + 1].rel));
                lemma_lex_irrefl(x.rel);
            }
            assert(t2[j - 1] == x);
        }
        assert forall|x: FindingV| t2.contains(x) implies t1.contains(x) by {
            let i = choose|i: int| 0 <= i < t2.len() && t2[i] == x;
            assert(s2.contains(x));
            let j = choose|j: int| 0 <= j < s1.len() && s1[j] == x;
            if j == 0 {
                assert(lex_lt(s2[0].rel, s2[i + 1].rel));
                lemma_lex_irrefl(x.rel);
            }
            assert(t1[j - 1] == x);
        }
        assert forall|i: int, j: int| 0 <= i < j < t1.len() implies lex_lt(#[trigger] t1[i].rel, #[trigger] t1[j].rel) by {
            assert(lex_lt(s1[i + 1].rel, s1[j + 1].rel));
        }
        assert forall|i: int, j: int| 0 <= i < j < t2.len() implies lex_lt(#[trigger] t2[i].rel, #[trigger] t2[j].rel) by {
            assert(lex_lt(s2[i + 1].rel, s2[j + 1].rel));
        }
        lemma_rel_ascending_unique(t1, t2);
        assert(s1 == seq![s1[0]] + t1);
        assert(s2 == seq![s2[0]] + t2);
    }
}

proof fn lemma_sorted_ascending(found: Seq<FindingV>, sorted: Seq<FindingV>)
    requires
        sorted_by_rel(found, sorted),
        rels_distinct(found),
    ensures
        rel_ascending(sorted),
        forall|x: FindingV| sorted.contains(x) <==> found.contains(x),
{
    let p = choose|p: Seq<usize>|
        {
            &&& is_perm(p, found.len())
            &&& sorted_stable(found.map_values(|f: FindingV| f.rel), p)
            &&& sorted.len() == found.len()
            &&& forall|i: int| 0 <= i < sorted.len() ==> #[trigger] sorted[i] == found[p[i] as int]
        };
    let keys = found.map_values(|f: FindingV| f.rel);
    assert forall|i: int, j: int| 0 <= i < j < sorted.len() implies lex_lt(#[trigger] sorted[i].rel, #[trigger] sorted[j].rel) by {
        assert(sorted[i] == found[p[i] as int]);
        assert(sorted[j] == found[p[j] as int]);
        assert(keys[p[i] as int] == found[p[i] as int].rel);
        assert(keys[p[j] as int] == found[p[j] as int].rel);
        assert(p[i] != p[j]);
        if p[i] < p[j] {
            assert(found[p[i] as int].rel != found[p[j] as int].rel);
        } else {
            assert(found[p[j] as int].rel != found[p[i] as int].rel);
        }
    }
    assert forall|x: FindingV| sorted.contains(x) implies found.contains(x) by {
        let i = choose|i: int| 0 <= i < sorted.len() && sorted[i] == x;
        assert(found[p[i] as int] == x);
    }
    assert forall|x: FindingV| found.contains(x) implies sorted.contains(x) by {
        let j = choose|j: int| 0 <= j < found.len() && found[j] == x;
        assert(p.contains(j as usize));
        let i = choose|i: int| 0 <= i < p.len() && p[i] == j as usize;
        assert(i < sorted.len());
        assert(sorted[i] == found[p[i] as int]);
        assert(sorted[i] == x);
    }
}

/// The census lists its findings by path whatever order the walk met the
/// files in: two scans that recorded the same findings, no path twice,
/// finish with the same list.
pub proof fn law_census_order_is_canonical(
    found1: Seq<FindingV>,
    found2: Seq<FindingV>,
    sorted1: Seq<FindingV>,
    sorted2: Seq<FindingV>,
)
    requires
        sorted_by_rel(found1, sorted1),
        sorted_by_rel(found2, sorted2),
        rels_distinct(found1),
        rels_distinct(found2),
        forall|x: FindingV| found1.contains(x) <==> found2.contains(x),
    ensures
        sorted1 == sorted2,
{
    lemma_sorted_ascending(found1, sorted1);
    lemma_sorted_ascending(found2, sorted2);
    lemma_rel_ascending_unique(sorted1, sorted2);
}

} // verus!
