use vstd::prelude::*;

use crate::text::{joined, join_parts, same_text};

verus! {

/// Bounds of one directory walk; they stay fixed for the whole walk.
pub struct ScanLimits {
    /// Deepest level visited below the root (the root itself is level 0).
    pub max_depth: usize,
    /// Most files that become candidates.
    pub max_files: usize,
    /// Largest size in bytes of a candidate file.
    pub max_file_bytes: u64,
}

/// Levels below the working directory that the context walk visits.
pub const CONTEXT_DEPTH: usize = 3;

impl ScanLimits {
    /// The limits of the context walk: the fixed depth, and the configured
    /// caps on candidates and on file size.
    pub fn for_context(max_files: usize, max_file_bytes: u64) -> (r: ScanLimits)
        ensures
            r.max_depth == CONTEXT_DEPTH,
            r.max_files == max_files,
            r.max_file_bytes == max_file_bytes,
    {
        ScanLimits { max_depth: CONTEXT_DEPTH, max_files, max_file_bytes }
    }
}

/// One entry met by a walk that does not follow symbolic links.
pub struct ScanEntry {
    /// The entry's path relative to the root, one element per level.
    pub components: Vec<String>,
    /// Whether the entry is a regular file.
    pub is_file: bool,
    /// Its size in bytes, when it could be read.
    pub size: Option<u64>,
}

/// A file chosen for the context packet.
pub struct CandidateFile {
    /// Position of the entry in the walk it came from.
    pub index: usize,
    /// Relative path, its parts joined by `/`.
    pub path: String,
    /// Its last part.
    pub name: String,
    /// Size in bytes.
    pub size: u64,
}

/// The candidates of a walk, in walk order, and how many files it saw.
pub struct Selection {
    pub files: Vec<CandidateFile>,
    pub total: usize,
}

/// The mathematical value of a candidate.
pub struct CandidateView {
    pub index: nat,
    pub path: Seq<char>,
    pub name: Seq<char>,
    pub size: u64,
}

impl View for CandidateFile {
    type V = CandidateView;

    open spec fn view(&self) -> CandidateView {
        CandidateView { index: self.index as nat, path: self.path@, name: self.name@, size: self.size }
    }
}

/// The last part of a path, or nothing for the root.
pub open spec fn base_name(parts: Seq<Seq<char>>) -> Seq<char> {
    if parts.len() == 0 {
        Seq::empty()
    } else {
        parts.last()
    }
}

/// Names of directories that hold build output or dependency caches.
pub open spec fn reserved_name(n: Seq<char>) -> bool {
    n == "target"@ || n == "node_modules"@ || n == "__pycache__"@ || n == "dist"@ || n == "build"@
}

/// An entry whose subtree the walk prunes: hidden (leading `.`) or reserved.
pub open spec fn excluded_name(n: Seq<char>) -> bool {
    (n.len() > 0 && n[0] == '.') || reserved_name(n)
}

/// An entry that the walk reaches: within the depth bound, and under no
/// pruned directory nor pruned itself.
pub open spec fn reached(parts: Seq<Seq<char>>, limits: ScanLimits) -> bool {
    &&& parts.len() <= limits.max_depth
    &&& forall|k: int| 0 <= k < parts.len() ==> !excluded_name(#[trigger] parts[k])
}

/// A regular file that the walk reaches, and so counts among the files seen.
pub open spec fn counted(e: ScanEntry, limits: ScanLimits) -> bool {
    e.is_file && reached(e.components.deep_view(), limits)
}

/// Whether a counted file fits the size bound.
pub open spec fn size_fits(e: ScanEntry, limits: ScanLimits) -> bool {
    match e.size {
        Some(n) => n <= limits.max_file_bytes,
        None => false,
    }
}

/// The candidate made of the entry at `index`.
pub open spec fn candidate_of(e: ScanEntry, index: nat) -> CandidateView {
    CandidateView {
        index,
        path: joined(e.components.deep_view()),
        name: base_name(e.components.deep_view()),
        size: match e.size {
            Some(n) => n,
            None => 0,
        },
    }
}

/// The candidates chosen from a walk, in order, and the number of files it saw.
/// A counted file becomes a candidate while fewer than `max_files` were chosen
/// and its size is known and within `max_file_bytes`.
pub open spec fn select_spec(entries: Seq<ScanEntry>, limits: ScanLimits) -> (Seq<CandidateView>, nat)
    decreases entries.len(),
{
    if entries.len() == 0 {
        (Seq::empty(), 0)
    } else {
        let (files, total) = select_spec(entries.drop_last(), limits);
        let e = entries.last();
        if counted(e, limits) {
            if files.len() < limits.max_files && size_fits(e, limits) {
                (files.push(candidate_of(e, (entries.len() - 1) as nat)), total + 1)
            } else {
                (files, total + 1)
            }
        } else {
            (files, total)
        }
    }
}

/// The number of files that a walk counts.
pub open spec fn count_seen(entries: Seq<ScanEntry>, limits: ScanLimits) -> nat
    decreases entries.len(),
{
    if entries.len() == 0 {
        0
    } else {
        count_seen(entries.drop_last(), limits) + if counted(entries.last(), limits) {
            1nat
        } else {
            0nat
        }
    }
}

/// Whether the walk prunes an entry of this name, and with it everything below.
pub fn is_excluded_name(name: &str) -> (r: bool)
    ensures
        r == excluded_name(name@),
{
    proof {
        reveal_strlit("target");
        reveal_strlit("node_modules");
        reveal_strlit("__pycache__");
        reveal_strlit("dist");
        reveal_strlit("build");
    }
    if name.unicode_len() > 0 && name.get_char(0) == '.' {
        return true;
    }
    same_text(name, "target") || same_text(name, "node_modules") || same_text(name, "__pycache__")
        || same_text(name, "dist") || same_text(name, "build")
}

/// Whether the walk reaches an entry with these path parts.
pub fn is_reached(parts: &Vec<String>, limits: &ScanLimits) -> (r: bool)
    ensures
        r == reached(parts.deep_view(), *limits),
{
    if parts.len() > limits.max_depth {
        return false;
    }
    let mut i: usize = 0;
    while i < parts.len()
        invariant
            i <= parts.len(),
            forall|k: int| 0 <= k < i ==> !excluded_name(#[trigger] parts.deep_view()[k]),
        decreases parts.len() - i,
    {
        if is_excluded_name(parts[i].as_str()) {
            assert(excluded_name(parts.deep_view()[i as int]));
            return false;
        }
        i = i + 1;
    }
    true
}

/// Chooses the candidate files of a walk and counts the files it saw.
pub fn select_files(entries: &Vec<ScanEntry>, limits: &ScanLimits) -> (r: Selection)
    ensures
        (r.files@.map_values(|f: CandidateFile| f@), r.total as nat) == select_spec(entries@, *limits),
{
    let mut files: Vec<CandidateFile> = Vec::new();
    let mut total: usize = 0;
    let mut i: usize = 0;
    proof {
        assert(entries@.take(0) =~= Seq::<ScanEntry>::empty());
        assert(files@.map_values(|f: CandidateFile| f@) =~= Seq::<CandidateView>::empty());
    }
    while i < entries.len()
        invariant
            i <= entries.len(),
            total <= i,
            (files@.map_values(|f: CandidateFile| f@), total as nat) == select_spec(
                entries@.take(i as int),
                *limits,
            ),
        decreases entries.len() - i,
    {
        let e = &entries[i];
        let ghost old_files = files@.map_values(|f: CandidateFile| f@);
        proof {
            assert(entries@.take(i + 1).drop_last() =~= entries@.take(i as int));
            assert(entries@.take(i + 1).last() == *e);
        }
        if e.is_file && is_reached(&e.components, limits) {
            if files.len() < limits.max_files {
                match e.size {
                    Some(n) => {
                        if n <= limits.max_file_bytes {
                            let path = join_parts(&e.components);
                            let name = if e.components.len() == 0 {
                                String::new()
                            } else {
                                e.components[e.components.len() - 1].clone()
                            };
                            files.push(CandidateFile { index: i, path, name, size: n });
                            proof {
                                assert(files@.map_values(|f: CandidateFile| f@) =~= old_files.push(
                                    candidate_of(*e, i as nat),
                                ));
                            }
                        }
                    },
                    None => {},
                }
            }
            total = total + 1;
        }
        i = i + 1;
    }
    proof {
        assert(entries@.take(entries.len() as int) =~= entries@);
    }
    Selection { files, total }
}

/// Every candidate comes from a counted entry of the walk whose size fits,
/// and is that entry's path, name and size.
pub proof fn lemma_candidates_from_entries(entries: Seq<ScanEntry>, limits: ScanLimits)
    ensures
        forall|i: int|
            #![trigger select_spec(entries, limits).0[i]]
            0 <= i < select_spec(entries, limits).0.len() ==> {
                let c = select_spec(entries, limits).0[i];
                &&& c.index < entries.len()
                &&& counted(entries[c.index as int], limits)
                &&& size_fits(entries[c.index as int], limits)
                &&& c == candidate_of(entries[c.index as int], c.index)
            },
    decreases entries.len(),
{
    if entries.len() > 0 {
        let prefix = entries.drop_last();
        lemma_candidates_from_entries(prefix, limits);
        let chosen = select_spec(prefix, limits).0;
        assert forall|i: int| 0 <= i < chosen.len() implies prefix[#[trigger] chosen[i].index as int]
            == entries[chosen[i].index as int] by {}
    }
}

/// The count of files seen is every counted file, whether or not the cap on
/// candidates or the size bound kept it out.
pub proof fn lemma_total_counts_every_file(entries: Seq<ScanEntry>, limits: ScanLimits)
    ensures
        select_spec(entries, limits).1 == count_seen(entries, limits),
    decreases entries.len(),
{
    if entries.len() > 0 {
        lemma_total_counts_every_file(entries.drop_last(), limits);
    }
}

/// With room for no candidate, the walk chooses none and still counts every
/// file it sees.
pub proof fn lemma_no_room_no_candidates(entries: Seq<ScanEntry>, limits: ScanLimits)
    requires
        limits.max_files == 0,
    ensures
        select_spec(entries, limits).0.len() == 0,
        select_spec(entries, limits).1 == count_seen(entries, limits),
    decreases entries.len(),
{
    lemma_total_counts_every_file(entries, limits);
    if entries.len() > 0 {
        lemma_no_room_no_candidates(entries.drop_last(), limits);
    }
}

/// A file larger than the size bound is never a candidate, yet it is counted
/// among the files seen when the walk reaches it.
pub proof fn lemma_oversized_counted_not_chosen(entries: Seq<ScanEntry>, limits: ScanLimits, j: int)
    requires
        0 <= j < entries.len(),
        entries[j].is_file,
        reached(entries[j].components.deep_view(), limits),
        entries[j].size is Some,
        entries[j].size->0 > limits.max_file_bytes,
    ensures
        forall|i: int|
            0 <= i < select_spec(entries, limits).0.len() ==> #[trigger] select_spec(entries, limits).0[i].index != j,
        select_spec(entries, limits).1 == count_seen(entries, limits),
        count_seen(entries, limits) >= 1,
{
    lemma_candidates_from_entries(entries, limits);
    lemma_total_counts_every_file(entries, limits);
    lemma_count_includes(entries, limits, j);
}

proof fn lemma_count_includes(entries: Seq<ScanEntry>, limits: ScanLimits, j: int)
    requires
        0 <= j < entries.len(),
        counted(entries[j], limits),
    ensures
        count_seen(entries, limits) >= 1,
    decreases entries.len(),
{
    if j < entries.len() - 1 {
        assert(entries.drop_last()[j] == entries[j]);
        lemma_count_includes(entries.drop_last(), limits, j);
    }
}

/// No candidate lies in or under a pruned directory: no part of its path is
/// hidden or reserved, and it is no deeper than the depth bound.
pub proof fn lemma_no_candidate_under_excluded(entries: Seq<ScanEntry>, limits: ScanLimits)
    ensures
        forall|i: int, k: int|
            0 <= i < select_spec(entries, limits).0.len() && 0 <= k
                < entries[select_spec(entries, limits).0[i].index as int].components.deep_view().len()
                ==> !excluded_name(
                #[trigger] entries[#[trigger] select_spec(entries, limits).0[i].index as int].components.deep_view()[k],
            ),
        forall|i: int|
            0 <= i < select_spec(entries, limits).0.len() ==> entries[#[trigger] select_spec(
                entries,
                limits,
            ).0[i].index as int].components.len() <= limits.max_depth,
{
    lemma_candidates_from_entries(entries, limits);
}

/// The entries of a walk that it reaches, in order: what lies in a pruned
/// directory or below the depth bound is left out.
pub open spec fn reached_entries(entries: Seq<ScanEntry>, limits: ScanLimits) -> Seq<ScanEntry>
    decreases entries.len(),
{
    if entries.len() == 0 {
        Seq::empty()
    } else if reached(entries.last().components.deep_view(), limits) {
        reached_entries(entries.drop_last(), limits).push(entries.last())
    } else {
        reached_entries(entries.drop_last(), limits)
    }
}

/// What the packet shows of each candidate: its path, name and size, without
/// its position in the walk.
pub open spec fn listed(files: Seq<CandidateView>) -> Seq<(Seq<char>, Seq<char>, u64)> {
    files.map_values(|c: CandidateView| (c.path, c.name, c.size))
}

proof fn lemma_select_reached_only(entries: Seq<ScanEntry>, limits: ScanLimits)
    ensures
        listed(select_spec(entries, limits).0) == listed(select_spec(reached_entries(entries, limits), limits).0),
        select_spec(entries, limits).1 == select_spec(reached_entries(entries, limits), limits).1,
    decreases entries.len(),
{
    if entries.len() > 0 {
        let pre = entries.drop_last();
        let e = entries.last();
        lemma_select_reached_only(pre, limits);
        let r = reached_entries(pre, limits);
        if reached(e.components.deep_view(), limits) {
            let rp = r.push(e);
            assert(rp.drop_last() =~= r);
            assert(rp.last() == e);
            let (fa, _ta) = select_spec(pre, limits);
            let (fb, _tb) = select_spec(r, limits);
            assert(listed(fa).len() == fa.len());
            assert(listed(fb).len() == fb.len());
            assert(listed(fa.push(candidate_of(e, (entries.len() - 1) as nat))) =~= listed(fa).push(
                (joined(e.components.deep_view()), base_name(e.components.deep_view()), candidate_of(e, 0).size),
            ));
            assert(listed(fb.push(candidate_of(e, (rp.len() - 1) as nat))) =~= listed(fb).push(
                (joined(e.components.deep_view()), base_name(e.components.deep_view()), candidate_of(e, 0).size),
            ));
        }
    }
}

/// Whatever lies inside pruned directories (hidden or reserved names) or
/// below the depth bound changes nothing: two walks that agree on the entries
/// they reach give the same listing and the same count of files seen.
pub proof fn lemma_pruned_changes_nothing(a: Seq<ScanEntry>, b: Seq<ScanEntry>, limits: ScanLimits)
    requires
        reached_entries(a, limits) == reached_entries(b, limits),
    ensures
        listed(select_spec(a, limits).0) == listed(select_spec(b, limits).0),
        select_spec(a, limits).1 == select_spec(b, limits).1,
{
    lemma_select_reached_only(a, limits);
    lemma_select_reached_only(b, limits);
}

} // verus!
