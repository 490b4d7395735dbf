//! Reserved names: which entries are tool output, manifests, completion flags
//! or archives, and how the artifacts of one archived entry are named.
use vstd::prelude::*;

verus! {

/// Names that start with this prefix belong to the tool itself.
pub open spec fn tool_prefix() -> Seq<char> {
    seq!['z', 's', 't', '_']
}

/// Suffix of an archive produced from one entry.
pub open spec fn archive_suffix() -> Seq<char> {
    seq!['.', 't', 'a', 'r', '.', 'z', 's', 't']
}

/// Suffix of the manifest written beside an archived directory.
pub open spec fn manifest_suffix() -> Seq<char> {
    seq![
        '_', 'a', 'r', 'c', 'h', 'i', 'v', 'e', 'd', '-', 'f', 'i', 'l', 'e', 'l', 'i', 's', 't',
        '.', 't', 'x', 't',
    ]
}

/// Suffix of the completion-flag file left after compression.
pub open spec fn flag_suffix() -> Seq<char> {
    seq![
        '_', 'a', 'r', 'c', 'h', 'i', 'v', 'e', 'd', '-', 'm', 'e', 's', 's', 'a', 'g', 'e', '.',
        't', 'x', 't',
    ]
}

pub open spec fn starts_with(s: Seq<char>, p: Seq<char>) -> bool {
    p.len() <= s.len() && s.subrange(0, p.len() as int) == p
}

pub open spec fn ends_with(s: Seq<char>, p: Seq<char>) -> bool {
    p.len() <= s.len() && s.subrange(s.len() - p.len(), s.len() as int) == p
}

pub open spec fn has_reserved_prefix(name: Seq<char>) -> bool {
    starts_with(name, tool_prefix())
}

pub open spec fn has_archive_suffix(name: Seq<char>) -> bool {
    ends_with(name, archive_suffix())
}

pub open spec fn has_manifest_suffix(name: Seq<char>) -> bool {
    ends_with(name, manifest_suffix())
}

pub open spec fn has_flag_suffix(name: Seq<char>) -> bool {
    ends_with(name, flag_suffix())
}

/// What a run does with one entry.
#[derive(Clone, Copy, Debug, PartialEq, Eq, Structural)]
pub enum Classification {
    Skip,
    ExtractCandidate,
    CompressCandidate,
}

/// The naming state machine: tool output, manifests and flags are skipped in
/// both directions; an archive is only ever extracted, anything else is only
/// ever compressed.
pub open spec fn classification(name: Seq<char>, compress: bool) -> Classification {
    if has_reserved_prefix(name) || has_manifest_suffix(name) || has_flag_suffix(name) {
        Classification::Skip
    } else if has_archive_suffix(name) {
        if compress {
            Classification::Skip
        } else {
            Classification::ExtractCandidate
        }
    } else if compress {
        Classification::CompressCandidate
    } else {
        Classification::Skip
    }
}

pub fn tool_prefix_str() -> (r: &'static str)
    ensures
        r@ == tool_prefix(),
{
    proof {
        reveal_strlit("zst_");
    }
    let r = "zst_";
    assert(r@ =~= tool_prefix());
    r
}

pub fn archive_suffix_str() -> (r: &'static str)
    ensures
        r@ == archive_suffix(),
{
    proof {
        reveal_strlit(".tar.zst");
    }
    let r = ".tar.zst";
    assert(r@ =~= archive_suffix());
    r
}

pub fn manifest_suffix_str() -> (r: &'static str)
    ensures
        r@ == manifest_suffix(),
{
    proof {
        reveal_strlit("_archived-filelist.txt");
    }
    let r = "_archived-filelist.txt";
    assert(r@ =~= manifest_suffix());
    r
}

pub fn flag_suffix_str() -> (r: &'static str)
    ensures
        r@ == flag_suffix(),
{
    proof {
        reveal_strlit("_archived-message.txt");
    }
    let r = "_archived-message.txt";
    assert(r@ =~= flag_suffix());
    r
}

/// Whether `s` begins with `p`.
pub fn str_starts_with(s: &str, p: &str) -> (r: bool)
    ensures
        r == starts_with(s@, p@),
{
    let n = s.unicode_len();
    let m = p.unicode_len();
    if m > n {
        return false;
    }
    let mut i: usize = 0;
    while i < m
        invariant
            m == p@.len(),
            n == s@.len(),
            m <= n,
            i <= m,
            forall|k: int| 0 <= k < i ==> s@[k] == p@[k],
        decreases m - i,
    {
        if s.get_char(i) != p.get_char(i) {
            assert(s@.subrange(0, m as int)[i as int] != p@[i as int]);
            return false;
        }
        i = i + 1;
    }
    assert(s@.subrange(0, m as int) =~= p@);
    true
}

/// Whether `s` ends with `p`.
pub fn str_ends_with(s: &str, p: &str) -> (r: bool)
    ensures
        r == ends_with(s@, p@),
{
    let n = s.unicode_len();
    let m = p.unicode_len();
    if m > n {
        return false;
    }
    let off = n - m;
    let mut i: usize = 0;
    while i < m
        invariant
            m == p@.len(),
            n == s@.len(),
            m <= n,
            off == n - m,
            i <= m,
            forall|k: int| 0 <= k < i ==> s@[off + k] == p@[k],
        decreases m - i,
    {
        if s.get_char(off + i) != p.get_char(i) {
            assert(s@.subrange(off as int, n as int)[i as int] != p@[i as int]);
            return false;
        }
        i = i + 1;
    }
    assert(s@.subrange(off as int, n as int) =~= p@);
    true
}

/// Classifies one entry by its name and the run's direction.
pub fn classify(name: &str, compress: bool) -> (r: Classification)
    ensures
        r == classification(name@, compress),
{
    if str_starts_with(name, tool_prefix_str()) || str_ends_with(name, manifest_suffix_str())
        || str_ends_with(name, flag_suffix_str()) {
        Classification::Skip
    } else if str_ends_with(name, archive_suffix_str()) {
        if compress {
            Classification::Skip
        } else {
            Classification::ExtractCandidate
        }
    } else if compress {
        Classification::CompressCandidate
    } else {
        Classification::Skip
    }
}


pub open spec fn archive_name(source: Seq<char>) -> Seq<char> {
    source + archive_suffix()
}

pub open spec fn manifest_name(source: Seq<char>) -> Seq<char> {
    source + manifest_suffix()
}

pub open spec fn flag_name(source: Seq<char>) -> Seq<char> {
    source + flag_suffix()
}

/// The source name that an archive name was made from.
pub open spec fn source_of_archive(archive: Seq<char>) -> Seq<char> {
    archive.subrange(0, archive.len() - archive_suffix().len())
}

/// Name of the archive made from `source`.
pub fn archive_name_of(source: &str) -> (r: String)
    ensures
        r@ == archive_name(source@),
{
    source.to_owned().concat(archive_suffix_str())
}

/// Name of the manifest written for the directory `source`.
pub fn manifest_name_of(source: &str) -> (r: String)
    ensures
        r@ == manifest_name(source@),
{
    source.to_owned().concat(manifest_suffix_str())
}

/// Name of the completion-flag file written for `source`.
pub fn flag_name_of(source: &str) -> (r: String)
    ensures
        r@ == flag_name(source@),
{
    source.to_owned().concat(flag_suffix_str())
}

/// The source name an archive restores to: the archive name without its suffix.
pub fn source_name_of(archive: &str) -> (r: String)
    requires
        has_archive_suffix(archive@),
    ensures
        r@ == source_of_archive(archive@),
{
    let n = archive.unicode_len();
    let m = archive_suffix_str().unicode_len();
    archive.substring_char(0, n - m).to_owned()
}

proof fn lemma_ends_with_concat(s: Seq<char>, p: Seq<char>)
    ensures
        ends_with(s + p, p),
{
    assert((s + p).subrange(s.len() as int, (s + p).len() as int) =~= p);
}

/// An archive is never a compress candidate, and a manifest or a completion
/// flag is never a candidate of either direction: each of them, written for
/// any source name, is left alone by a compressing run, and the manifest and
/// flag are also left alone by an extracting run.
pub proof fn lemma_artifacts_never_recompressed(source: Seq<char>, compress: bool)
    ensures
        classification(archive_name(source), compress) != Classification::CompressCandidate,
        classification(manifest_name(source), compress) == Classification::Skip,
        classification(flag_name(source), compress) == Classification::Skip,
{
    lemma_ends_with_concat(source, archive_suffix());
    lemma_ends_with_concat(source, manifest_suffix());
    lemma_ends_with_concat(source, flag_suffix());
}

/// Any name that ends in the archive suffix is never a compress candidate.
pub proof fn lemma_archive_never_compress_candidate(name: Seq<char>, compress: bool)
    requires
        has_archive_suffix(name),
    ensures
        classification(name, compress) != Classification::CompressCandidate,
        classification(name, true) == Classification::Skip,
{
}

/// Extracting an archive restores the top-level name it was made from.
pub proof fn lemma_archive_name_round_trip(source: Seq<char>)
    ensures
        has_archive_suffix(archive_name(source)),
        source_of_archive(archive_name(source)) == source,
{
    lemma_ends_with_concat(source, archive_suffix());
    assert(source_of_archive(archive_name(source)) =~= source);
}

} // verus!
