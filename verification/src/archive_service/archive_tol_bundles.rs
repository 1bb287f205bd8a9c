//! TOL session bundles: where a session's files live in the vault, which
//! sessions the file names reveal, what the analysis note's sections say,
//! and whether a session can be bundled. Reading the vault is the caller's.
use vstd::prelude::*;

use crate::archive_service::{ArchiveRuntime, ArchiveTolBundleCandidate};
use crate::paths::{join_any, join_path, path_file_name, split_stem_extension, stem_and_extension, string_join_any, string_join_path, file_name_of};
use crate::text::{
    chars_eq_str, chars_of, find_chars, find_seq, owned, push_chars, push_str, split_all, split_seq, starts_with_seq,
    str_starts_with, string_from_chars, sub_vec, trim_chars, trim_seq, trim_start_chars, trim_start_seq,
};
use crate::utf8::{byte_prefix, prefix_of_bytes, utf8_len};

verus! {

// ─── Vault layout ───────────────────────────────────────────────────────────

/// Whether a mapping has the role and subtype.
pub open spec fn mapping_matches(role_m: Seq<char>, subtype_m: Option<Seq<char>>, role: Seq<char>, subtype: Seq<char>) -> bool {
    role_m == role && subtype_m == Some(subtype)
}

/// The folder of the first mapping with the role and subtype, under the
/// vault root.
pub open spec fn mapping_root(vault: Seq<char>, mappings: Seq<(Seq<char>, Option<Seq<char>>, Seq<char>)>, role: Seq<char>, subtype: Seq<char>) -> Option<Seq<char>>
    decreases mappings.len(),
{
    if mappings.len() == 0 {
        None
    } else if mapping_matches(mappings[0].0, mappings[0].1, role, subtype) {
        Some(join_any(vault, mappings[0].2))
    } else {
        mapping_root(vault, mappings.drop_first(), role, subtype)
    }
}

/// The mappings as plain values.
pub open spec fn mappings_view(r: ArchiveRuntime) -> Seq<(Seq<char>, Option<Seq<char>>, Seq<char>)> {
    r.mappings@.map_values(
        |m: crate::archive_service::ArchiveMapping|
            (
                m.role@,
                match m.subtype {
                    Some(s) => Some(s@),
                    None => None,
                },
                m.path@,
            ),
    )
}

/// The folder mapped for a role and subtype, under the vault root.
pub fn tol_mapping_root(runtime: &ArchiveRuntime, role: &str, subtype: &str) -> (r: Option<String>)
    ensures
        match mapping_root(runtime.vault_root@, mappings_view(*runtime), role@, subtype@) {
            Some(p) => r matches Some(s) && s@ == p,
            None => r is None,
        },
{
    let ghost mv = mappings_view(*runtime);
    let mut i: usize = 0;
    let role_s = owned(role);
    let sub_s = owned(subtype);
    assert(mv.skip(0) =~= mv);
    while i < runtime.mappings.len()
        invariant
            i <= runtime.mappings@.len(),
            mv == mappings_view(*runtime),
            mv.len() == runtime.mappings@.len(),
            role_s@ == role@,
            sub_s@ == subtype@,
            mapping_root(runtime.vault_root@, mv, role@, subtype@) == mapping_root(
                runtime.vault_root@,
                mv.skip(i as int),
                role@,
                subtype@,
            ),
        decreases runtime.mappings.len() - i,
    {
        let m = &runtime.mappings[i];
        let ghost rest = mv.skip(i as int);
        assert(rest[0] == mv[i as int]);
        assert(rest.drop_first() =~= mv.skip(i + 1));
        let sub_ok = match &m.subtype {
            Some(s) => *s == sub_s,
            None => false,
        };
        if m.role == role_s && sub_ok {
            return Some(string_join_any(runtime.vault_root.as_str(), m.path.as_str()));
        }
        i = i + 1;
    }
    assert(mv.skip(i as int) =~= Seq::<(Seq<char>, Option<Seq<char>>, Seq<char>)>::empty());
    None
}

/// The folder for a role and subtype, or the default folder under the
/// vault root.
pub fn tol_root_or(runtime: &ArchiveRuntime, role: &str, subtype: &str, default_rel: &str) -> (r: String)
    ensures
        r@ == match mapping_root(runtime.vault_root@, mappings_view(*runtime), role@, subtype@) {
            Some(p) => p,
            None => join_any(runtime.vault_root@, default_rel@),
        },
{
    match tol_mapping_root(runtime, role, subtype) {
        Some(p) => p,
        None => string_join_any(runtime.vault_root.as_str(), default_rel),
    }
}

/// The transcript folder: mapped as derived transcript sources, or
/// `03_TOL/TOL Transcripts`.
pub fn transcript_root(runtime: &ArchiveRuntime) -> (r: String)
    ensures
        r@ == match mapping_root(runtime.vault_root@, mappings_view(*runtime), "derived_sources"@, "transcript"@) {
            Some(p) => p,
            None => join_any(runtime.vault_root@, "03_TOL/TOL Transcripts"@),
        },
{
    tol_root_or(runtime, "derived_sources", "transcript", "03_TOL/TOL Transcripts")
}

/// The analysis folder: mapped as wiki analysis pages, or `03_TOL/TOL Analysis`.
pub fn analysis_root(runtime: &ArchiveRuntime) -> (r: String)
    ensures
        r@ == match mapping_root(runtime.vault_root@, mappings_view(*runtime), "wiki_pages"@, "analysis"@) {
            Some(p) => p,
            None => join_any(runtime.vault_root@, "03_TOL/TOL Analysis"@),
        },
{
    tol_root_or(runtime, "wiki_pages", "analysis", "03_TOL/TOL Analysis")
}

/// The raw audio folder: mapped as raw audio sources, or `03_TOL/RAW Audio`.
pub fn raw_audio_root(runtime: &ArchiveRuntime) -> (r: String)
    ensures
        r@ == match mapping_root(runtime.vault_root@, mappings_view(*runtime), "raw_sources"@, "audio"@) {
            Some(p) => p,
            None => join_any(runtime.vault_root@, "03_TOL/RAW Audio"@),
        },
{
    tol_root_or(runtime, "raw_sources", "audio", "03_TOL/RAW Audio")
}

/// The transcript file of a session: `<session>_TOL_Transcript.md`.
pub fn transcript_file(root: &str, session_id: &str) -> (p: String)
    ensures
        p@ == join_any(root@, session_id@ + "_TOL_Transcript.md"@),
{
    let mut n: Vec<char> = Vec::new();
    push_str(&mut n, session_id);
    push_str(&mut n, "_TOL_Transcript.md");
    let name = string_from_chars(&n);
    string_join_any(root, name.as_str())
}

/// The analysis file of a session: `<session>_TOL_Analysis.md`.
pub fn analysis_file(root: &str, session_id: &str) -> (p: String)
    ensures
        p@ == join_any(root@, session_id@ + "_TOL_Analysis.md"@),
{
    let mut n: Vec<char> = Vec::new();
    push_str(&mut n, session_id);
    push_str(&mut n, "_TOL_Analysis.md");
    let name = string_from_chars(&n);
    string_join_any(root, name.as_str())
}

// ─── Session identifiers ────────────────────────────────────────────────────

/// The session a file of a TOL folder belongs to: a `.md` file whose stem
/// ends with the folder's marker, the session being the stem before it.
pub open spec fn session_of_file(name: Seq<char>, marker: Seq<char>) -> Option<Seq<char>> {
    let (stem, ext) = stem_and_extension(name);
    if ext == Some("md"@) && marker.len() <= stem.len() && stem.skip(stem.len() - marker.len()) == marker {
        Some(stem.take(stem.len() - marker.len()))
    } else {
        None
    }
}

/// The session a file of a TOL folder belongs to, if any.
pub fn session_id_of_file(name: &str, suffix_marker: &str) -> (r: Option<String>)
    ensures
        match session_of_file(name@, suffix_marker@) {
            Some(s) => r matches Some(x) && x@ == s,
            None => r is None,
        },
{
    let v = chars_of(name);
    let (stem, ext) = split_stem_extension(&v);
    let is_md = match &ext {
        Some(e) => chars_eq_str(e, "md"),
        None => false,
    };
    if !is_md {
        return None;
    }
    let m = chars_of(suffix_marker);
    if m.len() > stem.len() {
        return None;
    }
    let cut = stem.len() - m.len();
    let tail = sub_vec(&stem, cut, stem.len());
    assert(tail@ =~= stem@.skip(cut as int));
    if !crate::text::chars_eq(&tail, &m) {
        return None;
    }
    let head = sub_vec(&stem, 0, cut);
    assert(head@ =~= stem@.take(cut as int));
    Some(string_from_chars(&head))
}

/// The part of a text between two byte offsets, when both fall between
/// characters (`str::get`).
pub open spec fn byte_slice(s: Seq<char>, a: nat, b: nat) -> Option<Seq<char>> {
    match (byte_prefix(s, a), byte_prefix(s, b)) {
        (Some(p), Some(q)) => if a <= b {
            Some(q.skip(p.len() as int))
        } else {
            None
        },
        _ => None,
    }
}

/// The recorder's file stem for a session `YYYY-MM-DD_HHMM` (15 bytes):
/// `YYMMDD_HHMM`.
pub open spec fn recorder_stem(session_id: Seq<char>) -> Option<Seq<char>> {
    if utf8_len(session_id) != 15 {
        None
    } else {
        match (
            byte_slice(session_id, 2, 4),
            byte_slice(session_id, 5, 7),
            byte_slice(session_id, 8, 10),
            byte_slice(session_id, 11, 15),
        ) {
            (Some(y), Some(m), Some(d), Some(t)) => Some(y + m + d + "_"@ + t),
            _ => None,
        }
    }
}

proof fn lemma_prefix_len(s: Seq<char>, b: nat)
    ensures
        byte_prefix(s, b) matches Some(p) ==> p.len() <= s.len() && p == s.take(p.len() as int),
{
}

/// The text between two byte offsets, when both fall between characters.
fn get_bytes(v: &Vec<char>, a: u64, b: u64) -> (r: Option<Vec<char>>)
    ensures
        match byte_slice(v@, a as nat, b as nat) {
            Some(s) => r matches Some(x) && x@ == s,
            None => r is None,
        },
{
    let (pa, _) = prefix_of_bytes(v, a);
    let (pb, _) = prefix_of_bytes(v, b);
    proof {
        lemma_prefix_len(v@, a as nat);
        lemma_prefix_len(v@, b as nat);
    }
    match (pa, pb) {
        (Some(x), Some(y)) => {
            if a <= b {
                proof {
                    if x@.len() > y@.len() {
                        let kx = x@.len() as int;
                        let ky = y@.len() as int;
                        crate::utf8::lemma_utf8_prefix_increasing(v@, ky, kx);
                        assert(x@ == v@.take(kx));
                        assert(y@ == v@.take(ky));
                    }
                }
                let out = sub_vec(&y, x.len(), y.len());
                assert(out@ =~= y@.skip(x@.len() as int));
                Some(out)
            } else {
                None
            }
        },
        _ => None,
    }
}

/// The recorder's file stem for a session, if the session ID has the
/// expected shape.
pub fn normalized_tol_session_to_recorder_stem(session_id: &str) -> (r: Option<String>)
    ensures
        match recorder_stem(session_id@) {
            Some(s) => r matches Some(x) && x@ == s,
            None => r is None,
        },
{
    let v = chars_of(session_id);
    let (_, long) = prefix_of_bytes(&v, 15);
    let (_, longer) = prefix_of_bytes(&v, 16);
    if !long || longer {
        return None;
    }
    let y = match get_bytes(&v, 2, 4) {
        Some(x) => x,
        None => {
            return None;
        },
    };
    let m = match get_bytes(&v, 5, 7) {
        Some(x) => x,
        None => {
            return None;
        },
    };
    let d = match get_bytes(&v, 8, 10) {
        Some(x) => x,
        None => {
            return None;
        },
    };
    let t = match get_bytes(&v, 11, 15) {
        Some(x) => x,
        None => {
            return None;
        },
    };
    let mut out: Vec<char> = Vec::new();
    push_chars(&mut out, &y);
    push_chars(&mut out, &m);
    push_chars(&mut out, &d);
    push_str(&mut out, "_");
    push_chars(&mut out, &t);
    Some(string_from_chars(&out))
}

/// The raw audio files that may hold a session, in the order they are
/// looked for: the recorder stem with `.mp3`, `.wav`, `.m4a`, `.aac`,
/// `.flac`; none when the session ID has another shape.
pub fn raw_audio_candidates(raw_root: &str, session_id: &str) -> (r: Vec<String>)
    ensures
        match recorder_stem(session_id@) {
            Some(stem) => r@.len() == 5 && r@[0]@ == join_any(raw_root@, stem + ".mp3"@) && r@[1]@ == join_any(
                raw_root@,
                stem + ".wav"@,
            ) && r@[2]@ == join_any(raw_root@, stem + ".m4a"@) && r@[3]@ == join_any(raw_root@, stem + ".aac"@)
                && r@[4]@ == join_any(raw_root@, stem + ".flac"@),
            None => r@.len() == 0,
        },
{
    let mut r: Vec<String> = Vec::new();
    let stem = match normalized_tol_session_to_recorder_stem(session_id) {
        Some(s) => s,
        None => {
            return r;
        },
    };
    let exts = ["mp3", "wav", "m4a", "aac", "flac"];
    let mut n0: Vec<char> = Vec::new();
    push_str(&mut n0, stem.as_str());
    push_str(&mut n0, ".mp3");
    r.push(string_join_any(raw_root, string_from_chars(&n0).as_str()));
    let mut n1: Vec<char> = Vec::new();
    push_str(&mut n1, stem.as_str());
    push_str(&mut n1, ".wav");
    r.push(string_join_any(raw_root, string_from_chars(&n1).as_str()));
    let mut n2: Vec<char> = Vec::new();
    push_str(&mut n2, stem.as_str());
    push_str(&mut n2, ".m4a");
    r.push(string_join_any(raw_root, string_from_chars(&n2).as_str()));
    let mut n3: Vec<char> = Vec::new();
    push_str(&mut n3, stem.as_str());
    push_str(&mut n3, ".aac");
    r.push(string_join_any(raw_root, string_from_chars(&n3).as_str()));
    let mut n4: Vec<char> = Vec::new();
    push_str(&mut n4, stem.as_str());
    push_str(&mut n4, ".flac");
    r.push(string_join_any(raw_root, string_from_chars(&n4).as_str()));
    r
}

// ─── Analysis note ──────────────────────────────────────────────────────────

/// The section markers of an analysis note, with their keys.
pub open spec fn section_markers() -> Seq<(Seq<char>, Seq<char>)> {
    seq![
        ("mirror"@, "## 1. The Mirror"@),
        ("dissonance"@, "## 2. Dissonance"@),
        ("strategicNextActions"@, "## 3. Strategic Next Actions"@),
        ("explicitDirectives"@, "## 4. Explicit Directives"@),
    ]
}

/// The end of a section within the text that starts at its marker: the
/// first place where a later marker occurs, or the end of the text.
pub open spec fn section_end(after: Seq<char>, later: Seq<(Seq<char>, Seq<char>)>) -> int
    decreases later.len(),
{
    if later.len() == 0 {
        after.len() as int
    } else {
        let rest = section_end(after, later.drop_first());
        match find_seq(after, later[0].1) {
            Some(i) => if i < rest {
                i
            } else {
                rest
            },
            None => rest,
        }
    }
}

/// The section of the `k`-th marker, when the marker occurs: its key and
/// the trimmed text from the marker up to the first later marker that
/// follows it.
pub open spec fn section_entry(body: Seq<char>, k: int) -> Option<(Seq<char>, Seq<char>)> {
    let markers = section_markers();
    match find_seq(body, markers[k].1) {
        Some(start) => {
            let after = body.skip(start);
            Some((markers[k].0, trim_seq(after.take(section_end(after, markers.skip(k + 1))))))
        },
        None => None,
    }
}

/// The sections of the first `n` markers that occur, in marker order.
pub open spec fn sections_upto(body: Seq<char>, n: int) -> Seq<(Seq<char>, Seq<char>)>
    decreases n,
{
    if n <= 0 {
        Seq::empty()
    } else {
        let r = sections_upto(body, n - 1);
        match section_entry(body, n - 1) {
            Some(e) => r.push(e),
            None => r,
        }
    }
}

proof fn lemma_section_end_bound(after: Seq<char>, later: Seq<(Seq<char>, Seq<char>)>)
    ensures
        0 <= section_end(after, later) <= after.len(),
    decreases later.len(),
{
    if later.len() > 0 {
        lemma_section_end_bound(after, later.drop_first());
    }
}

/// The markers as a vector of (key, marker) pairs.
fn markers_vec() -> (v: Vec<(String, String)>)
    ensures
        v@.len() == 4,
        forall|i: int| 0 <= i < 4 ==> (#[trigger] v@[i]).0@ == section_markers()[i].0 && v@[i].1@ == section_markers()[i].1,
{
    let mut v: Vec<(String, String)> = Vec::new();
    v.push((owned("mirror"), owned("## 1. The Mirror")));
    v.push((owned("dissonance"), owned("## 2. Dissonance")));
    v.push((owned("strategicNextActions"), owned("## 3. Strategic Next Actions")));
    v.push((owned("explicitDirectives"), owned("## 4. Explicit Directives")));
    v
}

/// The sections of an analysis note, as (key, text) pairs in marker order.
pub fn tol_analysis_sections(body: &str) -> (r: Vec<(String, String)>)
    ensures
        r@.len() == sections_upto(body@, 4).len(),
        forall|i: int|
            0 <= i < r@.len() ==> (#[trigger] r@[i]).0@ == sections_upto(body@, 4)[i].0 && r@[i].1@ == sections_upto(
                body@,
                4,
            )[i].1,
{
    let b = chars_of(body);
    let markers = markers_vec();
    let mut out: Vec<(String, String)> = Vec::new();
    let mut k: usize = 0;
    while k < 4
        invariant
            k <= 4,
            markers@.len() == 4,
            forall|i: int| 0 <= i < 4 ==> (#[trigger] markers@[i]).0@ == section_markers()[i].0 && markers@[i].1@ == section_markers()[i].1,
            b@ == body@,
            out@.len() == sections_upto(b@, k as int).len(),
            forall|i: int|
                0 <= i < out@.len() ==> (#[trigger] out@[i]).0@ == sections_upto(b@, k as int)[i].0 && out@[i].1@
                    == sections_upto(b@, k as int)[i].1,
        decreases 4 - k,
    {
        let marker = chars_of(markers[k].1.as_str());
        assert(markers@[k as int].1@ == section_markers()[k as int].1);
        match find_chars(&b, &marker) {
            Some(start) => {
                let after = sub_vec(&b, start, b.len());
                assert(after@ =~= b@.skip(start as int));
                let mut end: usize = after.len();
                let mut j: usize = 4;
                assert(section_markers().skip(4) =~= Seq::<(Seq<char>, Seq<char>)>::empty());
                while j > k + 1
                    invariant
                        k + 1 <= j <= 4,
                        markers@.len() == 4,
                        forall|i: int| 0 <= i < 4 ==> (#[trigger] markers@[i]).0@ == section_markers()[i].0 && markers@[i].1@ == section_markers()[i].1,
                        end == section_end(after@, section_markers().skip(j as int)),
                        end <= after@.len(),
                    decreases j,
                {
                    let jj = j - 1;
                    let ghost ls = section_markers().skip(jj as int);
                    assert(ls.drop_first() =~= section_markers().skip(j as int));
                    assert(ls[0] == section_markers()[jj as int]);
                    let nm = chars_of(markers[jj].1.as_str());
                    assert(markers@[jj as int].1@ == section_markers()[jj as int].1);
                    match find_chars(&after, &nm) {
                        Some(p) => {
                            if p < end {
                                end = p;
                            }
                        },
                        None => {},
                    }
                    j = jj;
                }
                let piece = sub_vec(&after, 0, end);
                assert(piece@ =~= after@.take(end as int));
                let text = trim_chars(&piece);
                assert(markers@[k as int].0@ == section_markers()[k as int].0);
                out.push((markers[k].0.clone(), string_from_chars(&text)));
            },
            None => {},
        }
        k = k + 1;
    }
    out
}

/// Number of open task lines (`* [ ]` or `- [ ]` after leading
/// whitespace) among the lines of a text.
pub open spec fn open_tasks(lines: Seq<Seq<char>>) -> nat
    decreases lines.len(),
{
    if lines.len() == 0 {
        0
    } else {
        open_tasks(lines.drop_last()) + if starts_with_seq(trim_start_seq(lines.last()), "* [ ]"@) || starts_with_seq(
            trim_start_seq(lines.last()),
            "- [ ]"@,
        ) {
            1nat
        } else {
            0nat
        }
    }
}

/// Number of open tasks in a section, zero without the section.
pub fn count_markdown_tasks(section: Option<&str>) -> (n: usize)
    ensures
        n == match section {
            Some(s) => open_tasks(split_seq(s@, '\n')),
            None => 0,
        },
{
    match section {
        None => 0,
        Some(content) => {
            let lines = split_all(&chars_of(content), '\n');
            let ghost ls = split_seq(content@, '\n');
            let mut n: usize = 0;
            let mut i: usize = 0;
            while i < lines.len()
                invariant
                    i <= lines@.len(),
                    lines@.len() == ls.len(),
                    forall|k: int| 0 <= k < lines@.len() ==> #[trigger] lines@[k]@ == ls[k],
                    n == open_tasks(ls.take(i as int)),
                    n <= i,
                decreases lines.len() - i,
            {
                assert(ls.take(i + 1).drop_last() =~= ls.take(i as int));
                assert(ls.take(i + 1).last() == lines@[i as int]@);
                let t = trim_start_chars(&lines[i]);
                let a = chars_of("* [ ]");
                let b = chars_of("- [ ]");
                if crate::text::starts_with_chars(&t, &a) || crate::text::starts_with_chars(&t, &b) {
                    n = n + 1;
                }
                i = i + 1;
            }
            assert(ls.take(i as int) =~= ls);
            n
        },
    }
}

// ─── Candidates and bundles ─────────────────────────────────────────────────

/// The status of a session from the files it has: nothing without
/// transcript and analysis, `missing-analysis` without the analysis,
/// `missing-transcript` without the transcript, else `bundle-ready`.
pub open spec fn candidate_status(transcript_exists: bool, analysis_exists: bool) -> Option<Seq<char>> {
    if !transcript_exists && !analysis_exists {
        None
    } else if !analysis_exists {
        Some("missing-analysis"@)
    } else if transcript_exists {
        Some("bundle-ready"@)
    } else {
        Some("missing-transcript"@)
    }
}

/// Decides the status of a session from the files it has.
pub fn tol_candidate_status(transcript_exists: bool, analysis_exists: bool) -> (r: Option<String>)
    ensures
        match candidate_status(transcript_exists, analysis_exists) {
            Some(s) => r matches Some(x) && x@ == s,
            None => r is None,
        },
{
    if !transcript_exists && !analysis_exists {
        None
    } else if !analysis_exists {
        Some(owned("missing-analysis"))
    } else if transcript_exists {
        Some(owned("bundle-ready"))
    } else {
        Some(owned("missing-transcript"))
    }
}

/// What a bundle request needs: a session ID that is not blank (it is
/// trimmed), a candidate for it, and both its transcript and analysis.
pub open spec fn bundle_inputs(
    session_id: Seq<char>,
    candidate: Option<(Option<Seq<char>>, Option<Seq<char>>)>,
) -> Result<(Seq<char>, Seq<char>, Seq<char>), Seq<char>> {
    let id = trim_seq(session_id);
    if id.len() == 0 {
        Err("TOL bundle session id is required."@)
    } else {
        match candidate {
            None => Err("No TOL session was found for `"@ + id + "`."@),
            Some((transcript, analysis)) => match transcript {
                None => Err("TOL session `"@ + id + "` is missing its transcript."@),
                Some(t) => match analysis {
                    None => Err("TOL session `"@ + id + "` is missing its analysis note."@),
                    Some(a) => Ok((id, t, a)),
                },
            },
        }
    }
}

/// The transcript and analysis of a candidate, as plain values.
pub open spec fn candidate_files(c: Option<ArchiveTolBundleCandidate>) -> Option<(Option<Seq<char>>, Option<Seq<char>>)> {
    match c {
        Some(x) => Some(
            (
                match x.transcript_path {
                    Some(p) => Some(p@),
                    None => None,
                },
                match x.analysis_path {
                    Some(p) => Some(p@),
                    None => None,
                },
            ),
        ),
        None => None,
    }
}

/// The trimmed session ID of a bundle request.
pub fn bundle_session_id(session_id: &str) -> (r: Result<String, String>)
    ensures
        trim_seq(session_id@).len() == 0 ==> (r matches Err(e) && e@ == "TOL bundle session id is required."@),
        trim_seq(session_id@).len() > 0 ==> (r matches Ok(s) && s@ == trim_seq(session_id@)),
{
    let t = crate::text::trim_str(session_id);
    if t.len() == 0 {
        return Err(owned("TOL bundle session id is required."));
    }
    Ok(string_from_chars(&t))
}

/// Checks a bundle request against the candidate found for its session and
/// returns the session ID, transcript and analysis paths.
pub fn check_bundle_inputs(session_id: &str, candidate: Option<&ArchiveTolBundleCandidate>) -> (r: Result<
    (String, String, String),
    String,
>)
    ensures
        match bundle_inputs(
            session_id@,
            candidate_files(
                match candidate {
                    Some(c) => Some(*c),
                    None => None,
                },
            ),
        ) {
            Ok((i, t, a)) => r matches Ok(v) && v.0@ == i && v.1@ == t && v.2@ == a,
            Err(m) => r matches Err(e) && e@ == m,
        },
{
    let id = match bundle_session_id(session_id) {
        Ok(s) => s,
        Err(e) => {
            return Err(e);
        },
    };
    let c = match candidate {
        Some(c) => c,
        None => {
            let mut out: Vec<char> = Vec::new();
            push_str(&mut out, "No TOL session was found for `");
            push_str(&mut out, id.as_str());
            push_str(&mut out, "`.");
            return Err(string_from_chars(&out));
        },
    };
    let t = match &c.transcript_path {
        Some(p) => p.clone(),
        None => {
            let mut out: Vec<char> = Vec::new();
            push_str(&mut out, "TOL session `");
            push_str(&mut out, id.as_str());
            push_str(&mut out, "` is missing its transcript.");
            return Err(string_from_chars(&out));
        },
    };
    let a = match &c.analysis_path {
        Some(p) => p.clone(),
        None => {
            let mut out: Vec<char> = Vec::new();
            push_str(&mut out, "TOL session `");
            push_str(&mut out, id.as_str());
            push_str(&mut out, "` is missing its analysis note.");
            return Err(string_from_chars(&out));
        },
    };
    Ok((id, t, a))
}

/// The format of a file in a bundle: its extension, `md` without one.
pub open spec fn file_format(path: Seq<char>) -> Seq<char> {
    match stem_and_extension(path_file_name(path)).1 {
        Some(e) => e,
        None => "md"@,
    }
}

/// The format of a file in a bundle.
pub fn bundle_file_format(path: &str) -> (f: String)
    ensures
        f@ == file_format(path@),
{
    let name = file_name_of(&chars_of(path));
    let (_, ext) = split_stem_extension(&name);
    match ext {
        Some(e) => string_from_chars(&e),
        None => owned("md"),
    }
}

// ─── Assembling candidates ──────────────────────────────────────────────────

/// What a session's analysis note gives: its path relative to the vault, the
/// `summary`, `date` and `time` of its frontmatter, and its body.
#[derive(Debug, Clone)]
pub struct TolAnalysisNote {
    pub path: String,
    pub summary: Option<String>,
    pub date: Option<String>,
    pub time: Option<String>,
    pub body: String,
}

/// The text of the first section with the key, if any.
pub open spec fn section_text(sections: Seq<(Seq<char>, Seq<char>)>, key: Seq<char>) -> Option<Seq<char>>
    decreases sections.len(),
{
    if sections.len() == 0 {
        None
    } else if sections[0].0 == key {
        Some(sections[0].1)
    } else {
        section_text(sections.drop_first(), key)
    }
}

/// The open tasks in the section of an analysis body with the key (zero
/// without the section).
pub open spec fn section_tasks(body: Seq<char>, key: Seq<char>) -> nat {
    match section_text(sections_upto(body, 4), key) {
        Some(t) => open_tasks(split_seq(t, '\n')),
        None => 0,
    }
}

/// The text of the first section with the key.
fn find_section<'a>(sections: &'a Vec<(String, String)>, key: &str) -> (r: Option<&'a str>)
    ensures
        match section_text(sections@.map_values(|p: (String, String)| (p.0@, p.1@)), key@) {
            Some(t) => r matches Some(x) && x@ == t,
            None => r is None,
        },
{
    let ghost views = sections@.map_values(|p: (String, String)| (p.0@, p.1@));
    let mut i: usize = 0;
    assert(views.skip(0) =~= views);
    while i < sections.len()
        invariant
            i <= sections@.len(),
            views == sections@.map_values(|p: (String, String)| (p.0@, p.1@)),
            section_text(views, key@) == section_text(views.skip(i as int), key@),
        decreases sections.len() - i,
    {
        let ghost rest = views.skip(i as int);
        assert(rest[0] == views[i as int]);
        assert(rest.drop_first() =~= views.skip(i + 1));
        if chars_eq_str(&chars_of(sections[i].0.as_str()), key) {
            return Some(sections[i].1.as_str());
        }
        i = i + 1;
    }
    assert(views.skip(i as int) =~= Seq::<(Seq<char>, Seq<char>)>::empty());
    None
}

/// The open tasks in the section of an analysis body with the key.
fn tasks_in_section(body: &str, key: &str) -> (n: usize)
    ensures
        n == section_tasks(body@, key@),
{
    let sections = tol_analysis_sections(body);
    let ghost views = sections@.map_values(|p: (String, String)| (p.0@, p.1@));
    assert(views =~= sections_upto(body@, 4));
    count_markdown_tasks(find_section(&sections, key))
}

/// Assembles the candidate of a session from what the vault holds of it:
/// the raw recording's path, the transcript's path and the analysis note
/// (each `None` where the vault has none). A session with neither
/// transcript nor analysis is no candidate. The candidate takes the paths as
/// given, the status of `candidate_status`, and from the analysis note its
/// summary, date and time and the open tasks of its strategic-next-actions
/// and explicit-directives sections (none of these without the note).
pub fn assemble_tol_candidate(
    session_id: &str,
    raw_audio_path: Option<String>,
    transcript_path: Option<String>,
    analysis: Option<TolAnalysisNote>,
) -> (r: Option<ArchiveTolBundleCandidate>)
    ensures
        r is None <==> (transcript_path is None && analysis is None),
        r matches Some(c) ==> {
            &&& c.session_id@ == session_id@
            &&& c.raw_audio_path == raw_audio_path
            &&& c.transcript_path == transcript_path
            &&& c.status@ == candidate_status(transcript_path is Some, analysis is Some)->0
            &&& match analysis {
                Some(a) => {
                    &&& c.analysis_path == Some(a.path)
                    &&& c.summary == a.summary
                    &&& c.date == a.date
                    &&& c.time == a.time
                    &&& c.strategic_actions_count == section_tasks(a.body@, "strategicNextActions"@)
                    &&& c.explicit_directives_count == section_tasks(a.body@, "explicitDirectives"@)
                },
                None => {
                    &&& c.analysis_path is None
                    &&& c.summary is None
                    &&& c.date is None
                    &&& c.time is None
                    &&& c.strategic_actions_count == 0
                    &&& c.explicit_directives_count == 0
                },
            }
        },
{
    let status = match tol_candidate_status(transcript_path.is_some(), analysis.is_some()) {
        Some(s) => s,
        None => {
            return None;
        },
    };
    match analysis {
        None => Some(
            ArchiveTolBundleCandidate {
                session_id: owned(session_id),
                raw_audio_path,
                transcript_path,
                analysis_path: None,
                date: None,
                time: None,
                summary: None,
                status,
                strategic_actions_count: 0,
                explicit_directives_count: 0,
            },
        ),
        Some(a) => {
            let strategic = tasks_in_section(a.body.as_str(), "strategicNextActions");
            let directives = tasks_in_section(a.body.as_str(), "explicitDirectives");
            Some(
                ArchiveTolBundleCandidate {
                    session_id: owned(session_id),
                    raw_audio_path,
                    transcript_path,
                    analysis_path: Some(a.path),
                    date: a.date,
                    time: a.time,
                    summary: a.summary,
                    status,
                    strategic_actions_count: strategic,
                    explicit_directives_count: directives,
                },
            )
        },
    }
}

// ─── Ordering candidates ────────────────────────────────────────────────────

/// `a` comes before `b` in lexicographic order of characters (which is the
/// order `String`'s comparison gives, since UTF-8 keeps the order of code
/// points).
pub open spec fn text_lt(a: Seq<char>, b: Seq<char>) -> bool
    decreases a.len(),
{
    if a.len() == 0 {
        b.len() > 0
    } else if b.len() == 0 {
        false
    } else if a[0] != b[0] {
        a[0] < b[0]
    } else {
        text_lt(a.drop_first(), b.drop_first())
    }
}

/// The order on texts is a strict total order.
pub proof fn lemma_text_lt_order(a: Seq<char>, b: Seq<char>, c: Seq<char>)
    ensures
        !text_lt(a, a),
        text_lt(a, b) ==> !text_lt(b, a),
        a != b ==> text_lt(a, b) || text_lt(b, a),
        text_lt(a, b) && text_lt(b, c) ==> text_lt(a, c),
    decreases a.len(),
{
    if a.len() > 0 {
        lemma_text_lt_order(a.drop_first(), a.drop_first(), a.drop_first());
        if b.len() > 0 {
            lemma_text_lt_order(a.drop_first(), b.drop_first(), c.drop_first());
            if a[0] == b[0] && a != b {
                assert(a.drop_first() != b.drop_first()) by {
                    if a.drop_first() == b.drop_first() {
                        assert(a =~= seq![a[0]] + a.drop_first());
                        assert(b =~= seq![b[0]] + b.drop_first());
                    }
                }
            }
        }
    } else {
        if b.len() == 0 {
            assert(a =~= b);
        }
    }
}

/// The session IDs of candidates.
pub open spec fn candidate_ids(v: Seq<ArchiveTolBundleCandidate>) -> Seq<Seq<char>> {
    v.map_values(|c: ArchiveTolBundleCandidate| c.session_id@)
}

/// `perm` lists each position below `n` once.
pub open spec fn is_permutation(perm: Seq<int>, n: nat) -> bool {
    &&& perm.len() == n
    &&& perm.no_duplicates()
    &&& forall|k: int| 0 <= k < perm.len() ==> 0 <= #[trigger] perm[k] < n
}

/// Orders candidates newest session first: by session ID from the last to
/// the first in lexicographic order, candidates with equal IDs keeping
/// their order.
pub fn sort_candidates_newest_first(v: Vec<ArchiveTolBundleCandidate>) -> (r: Vec<ArchiveTolBundleCandidate>)
    ensures
        exists|perm: Seq<int>|
            is_permutation(perm, v@.len()) && (forall|k: int| 0 <= k < r@.len() ==> #[trigger] r@[k] == v@[perm[k]])
                && (forall|i: int, j: int|
                0 <= i < j < r@.len() && r@[i].session_id@ == r@[j].session_id@ ==> perm[i] < perm[j]),
        forall|i: int, j: int| 0 <= i < j < r@.len() ==> !text_lt(#[trigger] r@[i].session_id@, #[trigger] r@[j].session_id@),
{
    let ghost orig = v@;
    let mut v = v;
    let mut r: Vec<ArchiveTolBundleCandidate> = Vec::new();
    let ghost mut perm: Seq<int> = Seq::empty();
    while v.len() > 0
        invariant
            v@ == orig.take(v@.len() as int),
            v@.len() <= orig.len(),
            r@.len() + v@.len() == orig.len(),
            perm.len() == r@.len(),
            perm.no_duplicates(),
            forall|k: int| 0 <= k < perm.len() ==> v@.len() <= #[trigger] perm[k] < orig.len(),
            forall|k: int| 0 <= k < r@.len() ==> #[trigger] r@[k] == orig[perm[k]],
            forall|i: int, j: int|
                0 <= i < j < r@.len() && r@[i].session_id@ == r@[j].session_id@ ==> perm[i] < perm[j],
            forall|i: int, j: int| 0 <= i < j < r@.len() ==> !text_lt(#[trigger] r@[i].session_id@, #[trigger] r@[j].session_id@),
        decreases v@.len(),
    {
        let ghost idx: int = v@.len() - 1;
        let x = v.pop().unwrap();
        assert(x == orig[idx]);
        let xid = chars_of(x.session_id.as_str());
        let mut p: usize = 0;
        while p < r.len() && text_less(&xid, &chars_of(r[p].session_id.as_str()))
            invariant
                p <= r@.len(),
                xid@ == x.session_id@,
                forall|k: int| 0 <= k < p ==> text_lt(x.session_id@, #[trigger] r@[k].session_id@),
            decreases r.len() - p,
        {
            p = p + 1;
        }
        let ghost before = r@;
        let ghost pbefore = perm;
        proof {
            assert forall|k: int| p <= k < before.len() implies !text_lt(x.session_id@, #[trigger] before[k].session_id@) by {
                assert(p < before.len());
                assert(!text_lt(x.session_id@, before[p as int].session_id@));
                if k > p {
                    assert(!text_lt(before[p as int].session_id@, before[k].session_id@));
                    lemma_text_lt_order(x.session_id@, before[p as int].session_id@, before[k].session_id@);
                    lemma_text_lt_order(before[p as int].session_id@, x.session_id@, before[k].session_id@);
                    lemma_text_lt_order(x.session_id@, before[k].session_id@, before[p as int].session_id@);
                    lemma_text_lt_order(before[k].session_id@, before[p as int].session_id@, x.session_id@);
                    lemma_text_lt_order(before[p as int].session_id@, before[k].session_id@, x.session_id@);
                }
            }
        }
        r.insert(p, x);
        proof {
            perm = pbefore.insert(p as int, idx);
            assert forall|k: int| 0 <= k < r@.len() implies #[trigger] r@[k] == orig[perm[k]] by {
                if k < p {
                    assert(r@[k] == before[k] && perm[k] == pbefore[k]);
                } else if k > p {
                    assert(r@[k] == before[k - 1] && perm[k] == pbefore[k - 1]);
                }
            }
            assert forall|k: int| 0 <= k < perm.len() implies v@.len() <= #[trigger] perm[k] < orig.len() by {
                if k < p {
                    assert(perm[k] == pbefore[k]);
                } else if k > p {
                    assert(perm[k] == pbefore[k - 1]);
                }
            }
            assert(perm.no_duplicates()) by {
                assert forall|i: int, j: int| 0 <= i < j < perm.len() implies perm[i] != perm[j] by {
                    if i != p && j != p {
                        let bi = if i < p { i } else { i - 1 };
                        let bj = if j < p { j } else { j - 1 };
                        assert(perm[i] == pbefore[bi] && perm[j] == pbefore[bj]);
                    } else if i == p {
                        let bj = j - 1;
                        assert(perm[j] == pbefore[bj]);
                    } else {
                        assert(perm[i] == pbefore[i]);
                    }
                }
            }
            assert forall|i: int, j: int| 0 <= i < j < r@.len() implies !text_lt(#[trigger] r@[i].session_id@, #[trigger] r@[j].session_id@) by {
                let s = r@;
                if i < p && j < p {
                    assert(s[i] == before[i] && s[j] == before[j]);
                } else if i < p && j == p {
                    assert(s[i] == before[i]);
                    lemma_text_lt_order(x.session_id@, before[i].session_id@, x.session_id@);
                } else if i < p && j > p {
                    assert(s[i] == before[i] && s[j] == before[j - 1]);
                } else if i == p {
                    assert(s[j] == before[j - 1]);
                } else {
                    assert(s[i] == before[i - 1] && s[j] == before[j - 1]);
                }
            }
            assert forall|i: int, j: int|
                0 <= i < j < r@.len() && r@[i].session_id@ == r@[j].session_id@ implies perm[i] < perm[j] by {
                let s = r@;
                if i < p && j < p {
                    assert(s[i] == before[i] && s[j] == before[j]);
                    assert(perm[i] == pbefore[i] && perm[j] == pbefore[j]);
                } else if i < p && j == p {
                    assert(s[i] == before[i]);
                    lemma_text_lt_order(x.session_id@, before[i].session_id@, x.session_id@);
                } else if i < p && j > p {
                    assert(s[i] == before[i] && s[j] == before[j - 1]);
                    assert(perm[i] == pbefore[i] && perm[j] == pbefore[j - 1]);
                } else if i == p {
                    assert(perm[j] == pbefore[j - 1]);
                } else {
                    assert(s[i] == before[i - 1] && s[j] == before[j - 1]);
                    assert(perm[i] == pbefore[i - 1] && perm[j] == pbefore[j - 1]);
                }
            }
            assert(v@ =~= orig.take(v@.len() as int));
        }
    }
    assert(is_permutation(perm, orig.len())) by {
        assert forall|k: int| 0 <= k < perm.len() implies 0 <= #[trigger] perm[k] < orig.len() by {}
    }
    r
}

/// Whether `a` comes before `b` in lexicographic order of characters.
fn text_less(a: &Vec<char>, b: &Vec<char>) -> (r: bool)
    ensures
        r == text_lt(a@, b@),
{
    let mut i: usize = 0;
    assert(a@.skip(0) =~= a@ && b@.skip(0) =~= b@);
    while i < a.len() && i < b.len() && a[i] == b[i]
        invariant
            i <= a@.len(),
            i <= b@.len(),
            text_lt(a@, b@) == text_lt(a@.skip(i as int), b@.skip(i as int)),
        decreases a.len() - i,
    {
        let ghost sa = a@.skip(i as int);
        let ghost sb = b@.skip(i as int);
        assert(sa.drop_first() =~= a@.skip(i + 1));
        assert(sb.drop_first() =~= b@.skip(i + 1));
        i = i + 1;
    }
    let ghost sa = a@.skip(i as int);
    let ghost sb = b@.skip(i as int);
    if i == a.len() {
        assert(sa.len() == 0);
        i < b.len()
    } else if i == b.len() {
        false
    } else {
        assert(sa[0] == a@[i as int] && sb[0] == b@[i as int]);
        a[i] < b[i]
    }
}

// ─── Bundle manifest ────────────────────────────────────────────────────────

/// What the vault says of a session's raw recording: its path, file name,
/// size and modification time.
#[derive(Debug, Clone)]
pub struct TolRawAudioMeta {
    pub path: String,
    pub original_file_name: String,
    pub size_bytes: u64,
    pub modified_at: Option<String>,
}

/// The manifest of a TOL session bundle (the analysis note's frontmatter is
/// added by the caller, which parses it).
#[derive(Debug, Clone)]
pub struct TolBundleManifest {
    pub schema_version: u32,
    pub bundle_type: String,
    pub source_addon_id: String,
    pub session_id: String,
    pub created_at: String,
    pub raw_audio: Option<TolRawAudioMeta>,
    pub transcript_path: String,
    pub transcript_format: String,
    pub analysis_path: String,
    pub analysis_format: String,
    /// The analysis note's sections, as (key, text) pairs in marker order.
    pub analysis_sections: Vec<(String, String)>,
    pub transcriber: String,
    pub protocol_path: String,
    pub template_path: String,
    pub metadata_completeness: String,
    pub raw_is_immutable: bool,
    pub transcript_is_derived: bool,
    pub analysis_is_derived: bool,
    pub trusted_wiki_write_allowed: bool,
}

/// The manifest of a session's bundle: schema version 1, an
/// `audio2tol.session` bundle from `addon.audio2tol`, the session, its
/// creation time and raw recording as given, the transcript and analysis
/// with their paths and formats, the analysis sections, the processing
/// (whisper.cpp with the TOL protocol and template, metadata inferred from
/// the current output) and the boundaries (raw immutable, transcript and
/// analysis derived, no trusted wiki write).
pub fn tol_bundle_manifest(
    session_id: &str,
    created_at: String,
    raw_audio: Option<TolRawAudioMeta>,
    transcript_path: &str,
    analysis_path: &str,
    analysis_body: &str,
) -> (m: TolBundleManifest)
    ensures
        m.schema_version == 1,
        m.bundle_type@ == "audio2tol.session"@,
        m.source_addon_id@ == "addon.audio2tol"@,
        m.session_id@ == session_id@,
        m.created_at == created_at,
        m.raw_audio == raw_audio,
        m.transcript_path@ == transcript_path@,
        m.transcript_format@ == file_format(transcript_path@),
        m.analysis_path@ == analysis_path@,
        m.analysis_format@ == file_format(analysis_path@),
        m.analysis_sections@.map_values(|p: (String, String)| (p.0@, p.1@)) == sections_upto(analysis_body@, 4),
        m.transcriber@ == "whisper.cpp"@,
        m.protocol_path@ == "TOL - SYSTEM INJECTION.rtf"@,
        m.template_path@ == "TOL_Analysis_Template.md"@,
        m.metadata_completeness@ == "inferred-from-current-audio2tol-output"@,
        m.raw_is_immutable,
        m.transcript_is_derived,
        m.analysis_is_derived,
        !m.trusted_wiki_write_allowed,
{
    let sections = tol_analysis_sections(analysis_body);
    assert(sections@.map_values(|p: (String, String)| (p.0@, p.1@)) =~= sections_upto(analysis_body@, 4));
    TolBundleManifest {
        schema_version: 1,
        bundle_type: owned("audio2tol.session"),
        source_addon_id: owned("addon.audio2tol"),
        session_id: owned(session_id),
        created_at,
        raw_audio,
        transcript_path: owned(transcript_path),
        transcript_format: bundle_file_format(transcript_path),
        analysis_path: owned(analysis_path),
        analysis_format: bundle_file_format(analysis_path),
        analysis_sections: sections,
        transcriber: owned("whisper.cpp"),
        protocol_path: owned("TOL - SYSTEM INJECTION.rtf"),
        template_path: owned("TOL_Analysis_Template.md"),
        metadata_completeness: owned("inferred-from-current-audio2tol-output"),
        raw_is_immutable: true,
        transcript_is_derived: true,
        analysis_is_derived: true,
        trusted_wiki_write_allowed: false,
    }
}

} // verus!
