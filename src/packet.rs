use vstd::prelude::*;

use crate::scan::{
    lemma_pruned_changes_nothing, listed, reached_entries, select_spec, CandidateFile, CandidateView, ScanEntry,
    ScanLimits, Selection,
};
use crate::text::{decimal, decimal_of, same_text, trim_text, trimmed};

verus! {

/// Names of files whose contents the packet inlines: a read-me and the
/// manifests of several package ecosystems.
pub open spec fn important_name(n: Seq<char>) -> bool {
    n == "README.md"@ || n == "Cargo.toml"@ || n == "package.json"@ || n == "pyproject.toml"@
        || n == "go.mod"@
}

/// Whether the packet inlines the contents of a file of this name.
pub fn is_important_name(name: &str) -> (r: bool)
    ensures
        r == important_name(name@),
{
    same_text(name, "README.md") || same_text(name, "Cargo.toml") || same_text(name, "package.json")
        || same_text(name, "pyproject.toml") || same_text(name, "go.mod")
}

/// The size in bytes of a text in UTF-8.
pub open spec fn byte_len(s: Seq<char>) -> nat {
    vstd::utf8::encode_utf8(s).len()
}

/// The listing line of one candidate.
pub open spec fn listing_line(path: Seq<char>) -> Seq<char> {
    "- "@ + path + "\n"@
}

/// One listing line per candidate, in order.
pub open spec fn listing(files: Seq<CandidateView>) -> Seq<char>
    decreases files.len(),
{
    if files.len() == 0 {
        Seq::empty()
    } else {
        listing(files.drop_last()) + listing_line(files.last().path)
    }
}

/// The labelled block that inlines one file's trimmed contents.
pub open spec fn section_text(path: Seq<char>, body: Seq<char>) -> Seq<char> {
    "\n#### "@ + path + ":\n```\n"@ + body + "\n```\n"@
}

/// The contents read for candidate `i`, if any.
pub open spec fn content_at(contents: Seq<Option<String>>, i: int) -> Option<Seq<char>> {
    if 0 <= i < contents.len() {
        match contents[i] {
            Some(c) => Some(c@),
            None => None,
        }
    } else {
        None
    }
}

/// The block of candidate `i`: present when its name is important and its
/// contents were read and fit the size bound.
pub open spec fn section_of(
    files: Seq<CandidateView>,
    contents: Seq<Option<String>>,
    i: int,
    max_file_bytes: nat,
) -> Seq<char> {
    match content_at(contents, i) {
        Some(c) => if important_name(files[i].name) && byte_len(c) <= max_file_bytes {
            section_text(files[i].path, trimmed(c))
        } else {
            Seq::empty()
        },
        None => Seq::empty(),
    }
}

/// The blocks of the first `n` candidates, in order.
pub open spec fn sections(
    files: Seq<CandidateView>,
    contents: Seq<Option<String>>,
    n: nat,
    max_file_bytes: nat,
) -> Seq<char>
    decreases n,
{
    if n == 0 {
        Seq::empty()
    } else {
        sections(files, contents, (n - 1) as nat, max_file_bytes) + section_of(
            files,
            contents,
            n - 1,
            max_file_bytes,
        )
    }
}

/// The closing note, present when some files seen are not listed.
pub open spec fn omitted_note_text(shown: nat, total: nat) -> Seq<char> {
    if shown < total {
        "\n(Showing "@ + decimal_of(shown) + " of "@ + decimal_of(total) + " total files)\n"@
    } else {
        Seq::empty()
    }
}

/// The context packet: empty when the feature is off; else a header naming
/// the working directory, the listing, the inlined important files and the
/// closing note.
pub open spec fn packet_of(
    enabled: bool,
    cwd: Seq<char>,
    files: Seq<CandidateView>,
    total: nat,
    contents: Seq<Option<String>>,
    max_file_bytes: nat,
) -> Seq<char> {
    if !enabled {
        Seq::empty()
    } else {
        "\n## Current Directory Context:\n\n"@ + "Working directory: "@ + cwd + "\n\n"@
            + "### Project Structure (relevant files):\n"@ + listing(files)
            + "\n### Important File Contents:\n"@ + sections(files, contents, files.len(), max_file_bytes)
            + omitted_note_text(files.len(), total)
    }
}

/// The labelled block for a file, given its already trimmed contents.
pub fn important_section(path: &str, body: &str) -> (r: String)
    ensures
        r@ == section_text(path@, body@),
{
    let mut s = String::from_str("\n#### ");
    s.append(path);
    s.append(":\n```\n");
    s.append(body);
    s.append("\n```\n");
    proof {
        assert(s@ =~= section_text(path@, body@));
    }
    s
}

/// The note on files left out of the listing, or nothing.
pub fn omitted_note(shown: usize, total: usize) -> (r: String)
    ensures
        r@ == omitted_note_text(shown as nat, total as nat),
{
    if shown < total {
        let mut s = String::from_str("\n(Showing ");
        let k = decimal(shown);
        let n = decimal(total);
        s.append(k.as_str());
        s.append(" of ");
        s.append(n.as_str());
        s.append(" total files)\n");
        proof {
            assert(s@ =~= omitted_note_text(shown as nat, total as nat));
        }
        s
    } else {
        String::new()
    }
}

/// The listing of the candidates, one line each, in order.
pub fn listing_text(files: &Vec<CandidateFile>) -> (r: String)
    ensures
        r@ == listing(files@.map_values(|f: CandidateFile| f@)),
{
    let ghost fs = files@.map_values(|f: CandidateFile| f@);
    let mut s = String::new();
    let mut i: usize = 0;
    proof {
        assert(fs.take(0) =~= Seq::<CandidateView>::empty());
    }
    while i < files.len()
        invariant
            fs == files@.map_values(|f: CandidateFile| f@),
            i <= files.len(),
            s@ == listing(fs.take(i as int)),
        decreases files.len() - i,
    {
        let ghost before = s@;
        s.append("- ");
        s.append(files[i].path.as_str());
        s.append("\n");
        proof {
            let t = fs.take(i + 1);
            assert(t.drop_last() =~= fs.take(i as int));
            assert(s@ =~= before + listing_line(t.last().path));
        }
        i = i + 1;
    }
    proof {
        assert(fs.take(files.len() as int) =~= fs);
    }
    s
}

/// The blocks of the important candidates whose contents were read and fit
/// the size bound. `contents[i]` holds what was read of candidate `i`.
pub fn sections_text(files: &Vec<CandidateFile>, contents: &Vec<Option<String>>, max_file_bytes: u64) -> (r: String)
    ensures
        r@ == sections(
            files@.map_values(|f: CandidateFile| f@),
            contents@,
            files.len() as nat,
            max_file_bytes as nat,
        ),
{
    let ghost fs = files@.map_values(|f: CandidateFile| f@);
    let mut s = String::new();
    let mut i: usize = 0;
    while i < files.len()
        invariant
            fs == files@.map_values(|f: CandidateFile| f@),
            i <= files.len(),
            s@ == sections(fs, contents@, i as nat, max_file_bytes as nat),
        decreases files.len() - i,
    {
        let ghost before = s@;
        if i < contents.len() {
            match &contents[i] {
                Some(c) => {
                    let n = c.as_str().as_bytes().len();
                    assert(n == byte_len(c@));
                    if is_important_name(files[i].name.as_str()) && n as u64 <= max_file_bytes {
                        let block = important_section(files[i].path.as_str(), trim_text(c.as_str()));
                        s.append(block.as_str());
                    }
                },
                None => {},
            }
        }
        proof {
            assert(fs[i as int] == files@[i as int]@);
            assert(s@ =~= before + section_of(fs, contents@, i as int, max_file_bytes as nat));
        }
        i = i + 1;
    }
    s
}

/// Renders the context packet of a walk rooted at `cwd`. When the feature is
/// off the packet is empty, and the walk need not be made at all.
/// `contents[i]` holds what was read of candidate `i` (nothing where the read
/// failed or was not made).
pub fn build_packet(
    enabled: bool,
    cwd: &str,
    selection: &Selection,
    contents: &Vec<Option<String>>,
    max_file_bytes: u64,
) -> (r: String)
    ensures
        r@ == packet_of(
            enabled,
            cwd@,
            selection.files@.map_values(|f: CandidateFile| f@),
            selection.total as nat,
            contents@,
            max_file_bytes as nat,
        ),
        !enabled ==> r@.len() == 0,
{
    if !enabled {
        return String::new();
    }
    let mut s = String::from_str("\n## Current Directory Context:\n\n");
    s.append("Working directory: ");
    s.append(cwd);
    s.append("\n\n");
    s.append("### Project Structure (relevant files):\n");
    let list = listing_text(&selection.files);
    s.append(list.as_str());
    s.append("\n### Important File Contents:\n");
    let blocks = sections_text(&selection.files, contents, max_file_bytes);
    s.append(blocks.as_str());
    let note = omitted_note(selection.files.len(), selection.total);
    s.append(note.as_str());
    proof {
        assert(s@ =~= packet_of(
            enabled,
            cwd@,
            selection.files@.map_values(|f: CandidateFile| f@),
            selection.total as nat,
            contents@,
            max_file_bytes as nat,
        ));
    }
    s
}

proof fn lemma_listing_by_listed(f1: Seq<CandidateView>, f2: Seq<CandidateView>)
    requires
        listed(f1) == listed(f2),
    ensures
        listing(f1) == listing(f2),
    decreases f1.len(),
{
    assert(listed(f1).len() == f1.len() && listed(f2).len() == f2.len());
    if f1.len() > 0 {
        assert(listed(f1.drop_last()) =~= listed(f1).drop_last());
        assert(listed(f2.drop_last()) =~= listed(f2).drop_last());
        lemma_listing_by_listed(f1.drop_last(), f2.drop_last());
        assert(listed(f1)[f1.len() - 1] == listed(f2)[f2.len() - 1]);
    }
}

proof fn lemma_sections_by_listed(
    f1: Seq<CandidateView>,
    f2: Seq<CandidateView>,
    contents: Seq<Option<String>>,
    n: nat,
    max_file_bytes: nat,
)
    requires
        listed(f1) == listed(f2),
        n <= f1.len(),
    ensures
        sections(f1, contents, n, max_file_bytes) == sections(f2, contents, n, max_file_bytes),
    decreases n,
{
    assert(listed(f1).len() == f1.len() && listed(f2).len() == f2.len());
    if n > 0 {
        lemma_sections_by_listed(f1, f2, contents, (n - 1) as nat, max_file_bytes);
        assert(listed(f1)[n - 1] == listed(f2)[n - 1]);
    }
}

/// Whatever lies inside pruned directories (hidden or reserved names) or
/// below the depth bound leaves the context packet unchanged: two walks that
/// agree on the entries they reach render the same packet from the same
/// contents.
pub proof fn lemma_pruned_packet_unchanged(
    a: Seq<ScanEntry>,
    b: Seq<ScanEntry>,
    limits: ScanLimits,
    enabled: bool,
    cwd: Seq<char>,
    contents: Seq<Option<String>>,
)
    requires
        reached_entries(a, limits) == reached_entries(b, limits),
    ensures
        packet_of(
            enabled,
            cwd,
            select_spec(a, limits).0,
            select_spec(a, limits).1,
            contents,
            limits.max_file_bytes as nat,
        ) == packet_of(
            enabled,
            cwd,
            select_spec(b, limits).0,
            select_spec(b, limits).1,
            contents,
            limits.max_file_bytes as nat,
        ),
{
    lemma_pruned_changes_nothing(a, b, limits);
    let f1 = select_spec(a, limits).0;
    let f2 = select_spec(b, limits).0;
    assert(listed(f1).len() == f1.len() && listed(f2).len() == f2.len());
    lemma_listing_by_listed(f1, f2);
    lemma_sections_by_listed(f1, f2, contents, f1.len(), limits.max_file_bytes as nat);
}

} // verus!
