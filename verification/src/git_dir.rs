//! Repository records: detection of a `.git` marker at the end of a path,
//! the derived repository root and project title, and the ordered probing of
//! README and LICENSE filename variants in a directory listing.

use vstd::prelude::*;

verus! {

use vstd::string::StrSliceExecFns;
use vstd::string::StringExecFns;
use crate::alike::alike_spec;
use crate::github_license::{markdown_link_spec, same_license, sim_gt, GithubLicense};
use crate::text::{
    chars_of,
    concat_all,
    contains_char,
    has_substring,
    last_segment,
    lemma_last_segment_subrange,
    parent_of,
    replace_all_spec,
    split_inclusive_spec,
    str_eq,
};

/// `p` names a `.git` entry as its final path component, and `.git` occurs
/// nowhere else in the path.
pub open spec fn is_git_marker_path(p: Seq<char>) -> bool {
    &&& p.len() >= 5
    &&& p.subrange(p.len() - 5, p.len() as int) == "/.git"@
    &&& !has_substring(p.subrange(0, p.len() - 5), ".git"@)
}

/// The repository root of a marker path: the path with the trailing
/// `/.git` stripped.
pub open spec fn root_of(p: Seq<char>) -> Seq<char> {
    p.subrange(0, p.len() - 5)
}

/// `root` and `name` joined with the path separator.
pub open spec fn path_join(root: Seq<char>, name: Seq<char>) -> Seq<char> {
    root + "/"@ + name
}

/// The first README filename variant, in fixed priority order, that exists
/// beneath `root` according to `listing`, as a full path.
pub open spec fn readme_lookup(root: Seq<char>, listing: Seq<Seq<char>>) -> Option<Seq<char>> {
    if listing.contains(path_join(root, "README"@)) {
        Some(path_join(root, "README"@))
    } else if listing.contains(path_join(root, "README.md"@)) {
        Some(path_join(root, "README.md"@))
    } else if listing.contains(path_join(root, "README.MD"@)) {
        Some(path_join(root, "README.MD"@))
    } else if listing.contains(path_join(root, "readme.md"@)) {
        Some(path_join(root, "readme.md"@))
    } else if listing.contains(path_join(root, "Readme.md"@)) {
        Some(path_join(root, "Readme.md"@))
    } else if listing.contains(path_join(root, "Readme.MD"@)) {
        Some(path_join(root, "Readme.MD"@))
    } else {
        None
    }
}

/// The first LICENSE filename variant, in fixed priority order, that exists
/// beneath `root` according to `listing`, as a full path.
pub open spec fn license_lookup(root: Seq<char>, listing: Seq<Seq<char>>) -> Option<Seq<char>> {
    if listing.contains(path_join(root, "LICENSE"@)) {
        Some(path_join(root, "LICENSE"@))
    } else if listing.contains(path_join(root, "license"@)) {
        Some(path_join(root, "license"@))
    } else if listing.contains(path_join(root, "License"@)) {
        Some(path_join(root, "License"@))
    } else {
        None
    }
}

/// Joins `root` and `name` with the path separator.
fn join_path(root: &str, name: &str) -> (r: String)
    ensures
        r@ == path_join(root@, name@),
{
    let mut r: String = String::new();
    r.append(root);
    r.append("/");
    r.append(name);
    proof {
        assert(r@ =~= path_join(root@, name@));
    }
    r
}

/// True when `listing` holds a string equal to `target`.
fn listing_contains(listing: &Vec<String>, target: &str) -> (b: bool)
    ensures
        b == listing.deep_view().contains(target@),
{
    let n: usize = listing.len();
    let mut i: usize = 0;
    while i < n
        invariant
            n == listing@.len(),
            i <= n,
            forall|k: int| 0 <= k < i ==> listing.deep_view()[k] != target@,
        decreases n - i,
    {
        if str_eq(listing[i].as_str(), target) {
            proof {
                assert(listing.deep_view()[i as int] == target@);
            }
            return true;
        }
        i = i + 1;
    }
    proof {
        assert(forall|k: int| 0 <= k < listing.deep_view().len()
            ==> listing.deep_view()[k] != target@);
    }
    false
}

/// Probes one filename variant beneath `root`.
fn probe(root: &str, name: &str, listing: &Vec<String>) -> (r: Option<String>)
    ensures
        listing.deep_view().contains(path_join(root@, name@)) ==> (r matches Some(p) && p@
            == path_join(root@, name@)),
        !listing.deep_view().contains(path_join(root@, name@)) ==> r is None,
{
    let full: String = join_path(root, name);
    if listing_contains(listing, full.as_str()) {
        Some(full)
    } else {
        None
    }
}

/// Finds the first existing README variant beneath `root`.
fn find_readme(root: &str, listing: &Vec<String>) -> (r: Option<String>)
    ensures
        r.deep_view() == readme_lookup(root@, listing.deep_view()),
{
    let mut r: Option<String> = probe(root, "README", listing);
    if r.is_none() {
        r = probe(root, "README.md", listing);
    }
    if r.is_none() {
        r = probe(root, "README.MD", listing);
    }
    if r.is_none() {
        r = probe(root, "readme.md", listing);
    }
    if r.is_none() {
        r = probe(root, "Readme.md", listing);
    }
    if r.is_none() {
        r = probe(root, "Readme.MD", listing);
    }
    r
}

/// Finds the first existing LICENSE variant beneath `root`.
fn find_license(root: &str, listing: &Vec<String>) -> (r: Option<String>)
    ensures
        r.deep_view() == license_lookup(root@, listing.deep_view()),
{
    let mut r: Option<String> = probe(root, "LICENSE", listing);
    if r.is_none() {
        r = probe(root, "license", listing);
    }
    if r.is_none() {
        r = probe(root, "License", listing);
    }
    r
}

/// Represents a directory containing a Git repository.
pub struct GitDir {
    pub path: String,
    pub readme_path: Option<String>,
    pub license_path: Option<String>,
    pub project_title: String,
    pub license: Option<GithubLicense>,
}

impl GitDir {
    /// Builds the record for the repository whose `.git` marker is `path`:
    /// the root keeps the path without the marker, the project title is the
    /// root's last segment, and the README and LICENSE paths are the first
    /// existing variants according to `listing`.  No license is matched yet.
    pub fn init(path: String, listing: &Vec<String>) -> (d: GitDir)
        requires
            is_git_marker_path(path@),
        ensures
            d.path@ == root_of(path@),
            d.project_title@ == last_segment(root_of(path@)),
            d.readme_path.deep_view() == readme_lookup(root_of(path@), listing.deep_view()),
            d.license_path.deep_view() == license_lookup(root_of(path@), listing.deep_view()),
            d.license is None,
    {
        let n: usize = path.as_str().unicode_len();
        let clean: String = path.as_str().substring_char(0, n - 5).to_owned();
        let project_title: String = crate::text::last_segment_str(clean.as_str());
        let readme_path: Option<String> = find_readme(clean.as_str(), listing);
        let license_path: Option<String> = find_license(clean.as_str(), listing);
        GitDir { path: clean, readme_path, license_path, project_title, license: None }
    }

    /// Returns the default path for the README file.
    pub fn get_default_readme_path(&self) -> (r: String)
        ensures
            r@ == path_join(self.path@, "README.md"@),
    {
        join_path(self.path.as_str(), "README.md")
    }

    /// Returns the path of the default license file.
    pub fn get_default_license_path(&self) -> (r: String)
        ensures
            r@ == path_join(self.path@, "LICENSE"@),
    {
        join_path(self.path.as_str(), "LICENSE")
    }

    /// Matches the content of this repository's license file against the
    /// catalog and stores the best-scoring entry whose similarity reaches
    /// 60 percent, if any.  Every other field is kept.
    pub fn attach_license(&mut self, licenses: &Vec<GithubLicense>, content: &str)
        requires
            content@.len() < usize::MAX,
            forall|j: int| 0 <= j < licenses@.len() ==> licenses@[j].body@.len() < usize::MAX,
        ensures
            final(self).path == old(self).path,
            final(self).readme_path == old(self).readme_path,
            final(self).license_path == old(self).license_path,
            final(self).project_title == old(self).project_title,
            (final(self).license is None) <==> (forall|j: int|
                0 <= j < licenses@.len() ==> !alike_spec(licenses@[j].body@, content@, 60)),
            final(self).license matches Some(lic) ==> exists|i: int|
                #![auto]
                {
                    &&& 0 <= i < licenses@.len()
                    &&& same_license(lic, licenses@[i])
                    &&& alike_spec(licenses@[i].body@, content@, 60)
                    &&& forall|j: int|
                        0 <= j < licenses@.len() && alike_spec(licenses@[j].body@, content@, 60)
                            ==> !sim_gt(content@, licenses@[j].body@, licenses@[i].body@)
                    &&& forall|j: int|
                        0 <= j < i ==> !alike_spec(licenses@[j].body@, content@, 60) || sim_gt(
                            content@,
                            licenses@[i].body@,
                            licenses@[j].body@,
                        )
                },
    {
        let found: Option<usize> = crate::github_license::find_license_match(licenses, content);
        match found {
            Some(i) => {
                self.license = Some(licenses[i].duplicate());
            },
            None => {
                self.license = None;
            },
        }
    }
}

/// The project title of a path: its next-to-last segment when the path has
/// at least two characters, a fixed placeholder title otherwise.
pub open spec fn project_title_spec(s: Seq<char>) -> Seq<char> {
    if s.len() < 2 {
        "project-title"@
    } else {
        last_segment(parent_of(s))
    }
}

/// Returns the name of the directory containing the final path component —
/// for a `.git` marker path, the repository directory's name.
pub fn get_project_title(path: &str) -> (r: String)
    requires
        path@.len() >= 2 ==> contains_char(path@, '/'),
    ensures
        r@ == project_title_spec(path@),
{
    let n: usize = path.unicode_len();
    if n < 2 {
        return String::from_str("project-title");
    }
    let v: Vec<char> = chars_of(path);
    let cut: usize = crate::text::last_seg_start(&v);
    proof {
        let k = choose|k: int| 0 <= k < path@.len() && path@[k] == '/';
        assert(k < cut);
        lemma_last_segment_subrange(path@, cut as int);
        assert(last_segment(path@).len() == n - cut);
    }
    let parent: &str = path.substring_char(0, cut - 1);
    let r: String = crate::text::last_segment_str(parent);
    proof {
        assert(parent@ =~= parent_of(path@));
    }
    r
}

/// One README slice speaks of the license section.
pub open spec fn has_license_heading(s: Seq<char>) -> bool {
    ||| has_substring(s, " License "@)
    ||| has_substring(s, " LICENSE "@)
    ||| has_substring(s, " License\n"@)
    ||| has_substring(s, " LICENSE\n"@)
}

/// The index of the first slice that speaks of the license, or -1.
pub open spec fn license_slice_index(parts: Seq<Seq<char>>) -> int
    decreases parts.len(),
{
    if parts.len() == 0 {
        -1
    } else if has_license_heading(parts[0]) {
        0
    } else {
        let r = license_slice_index(parts.skip(1));
        if r < 0 {
            -1
        } else {
            r + 1
        }
    }
}

proof fn lemma_license_slice_index_props(parts: Seq<Seq<char>>)
    ensures
        ({
            let m = license_slice_index(parts);
            &&& m == -1 ==> forall|k: int|
                0 <= k < parts.len() ==> !has_license_heading(parts[k])
            &&& m >= 0 ==> m < parts.len() && has_license_heading(parts[m]) && (forall|k: int|
                0 <= k < m ==> !has_license_heading(parts[k]))
        }),
    decreases parts.len(),
{
    if parts.len() > 0 && !has_license_heading(parts[0]) {
        lemma_license_slice_index_props(parts.skip(1));
        let r = license_slice_index(parts.skip(1));
        if r == -1 {
            assert forall|k: int| 0 <= k < parts.len() implies !has_license_heading(
                parts[k],
            ) by {
                if k >= 1 {
                    assert(parts.skip(1)[k - 1] == parts[k]);
                }
            }
        } else {
            assert(parts.skip(1)[r] == parts[r + 1]);
            assert forall|k: int| 0 <= k < r + 1 implies !has_license_heading(parts[k]) by {
                if k >= 1 {
                    assert(parts.skip(1)[k - 1] == parts[k]);
                }
            }
        }
    }
}

/// The text that replaces the license slice: the license link under the
/// existing heading when the slice is (or closely resembles) the final
/// slice or a fresh ` License` heading otherwise, reopening a following
/// section with `##` when the slice is not the last one.
pub open spec fn new_section_spec(
    old_slice: Seq<char>,
    last_slice: Seq<char>,
    link: Seq<char>,
    multi: bool,
) -> Seq<char> {
    if multi {
        if last_slice == old_slice || alike_spec(last_slice, old_slice, 70) {
            old_slice + "\n"@ + link
        } else {
            replace_all_spec(old_slice, "##"@, Seq::<char>::empty()) + "\n"@ + link + "\n\n##"@
        }
    } else if last_slice == old_slice {
        " License\n"@ + link
    } else {
        " License\n"@ + link + "\n\n##"@
    }
}

/// The README content after its license section is replaced: the content is
/// cut after each `##`, the first slice that speaks of the license is
/// rewritten around the new license link, and the slices are joined again.
/// Content without a license heading is left unchanged.
pub open spec fn replace_license_section_spec(
    content: Seq<char>,
    link: Seq<char>,
    multi: bool,
) -> Seq<char> {
    let parts = split_inclusive_spec(content, "##"@);
    let idx = license_slice_index(parts);
    if idx < 0 {
        concat_all(parts)
    } else {
        concat_all(parts.update(idx, new_section_spec(parts[idx], parts.last(), link, multi)))
    }
}

/// True when the slice holds one of the license heading markers.
fn has_license_heading_exec(s: &str) -> (b: bool)
    ensures
        b == has_license_heading(s@),
{
    crate::text::contains_str(s, " License ") || crate::text::contains_str(s, " LICENSE ")
        || crate::text::contains_str(s, " License\n") || crate::text::contains_str(
        s,
        " LICENSE\n",
    )
}

/// Replaces the license section of a README with a link to the given
/// license: the content is split after each `##` heading marker, the first
/// slice that speaks of the license is rewritten, and the slices are joined
/// again.  Content without a license heading comes back unchanged.
pub fn replace_license_section(old_content: &str, license: &GithubLicense, multi_license: bool) -> (r:
    String)
    requires
        old_content@.len() < usize::MAX,
    ensures
        r@ == replace_license_section_spec(
            old_content@,
            markdown_link_spec(license.spdx_id@, license.html_url@),
            multi_license,
        ),
{
    proof {
        reveal_strlit("##");
    }
    let mut parts: Vec<String> = crate::text::split_inclusive(old_content, "##");
    let ghost pv = parts.deep_view();
    let n: usize = parts.len();
    let mut i: usize = 0;
    let mut found: Option<usize> = None;
    while i < n
        invariant
            n == parts@.len(),
            pv == parts.deep_view(),
            i <= n,
            found is None ==> forall|k: int| 0 <= k < i ==> !has_license_heading(pv[k]),
            found matches Some(f) ==> f < i && has_license_heading(pv[f as int]) && (forall|
                k: int,
            |
                0 <= k < f ==> !has_license_heading(pv[k])),
        decreases n - i,
    {
        if found.is_none() && has_license_heading_exec(parts[i].as_str()) {
            found = Some(i);
        }
        i = i + 1;
    }
    proof {
        lemma_license_slice_index_props(pv);
        let m = license_slice_index(pv);
        match found {
            Some(f) => {
                assert(m >= 0) by {
                    if m == -1 {
                        assert(!has_license_heading(pv[f as int]));
                    }
                }
                assert(m == f) by {
                    if m < f {
                        assert(!has_license_heading(pv[m]));
                    }
                    if f < m {
                        assert(!has_license_heading(pv[f as int]));
                    }
                }
            },
            None => {
                assert(m == -1) by {
                    if m >= 0 {
                        assert(!has_license_heading(pv[m]));
                    }
                }
            },
        }
    }
    match found {
        None => crate::text::concat_parts(&parts),
        Some(idx) => {
            proof {
                crate::text::lemma_split_parts_len(old_content@, "##"@);
            }
            let link: String = license.get_markdown_license_link();
            let last_idx: usize = n - 1;
            let is_last_eq: bool = str_eq(parts[last_idx].as_str(), parts[idx].as_str());
            proof {
                assert(pv.last() == pv[last_idx as int]);
            }
            let mut section: String;
            if multi_license {
                let near: bool = if is_last_eq {
                    true
                } else {
                    crate::alike::is_alike(parts[last_idx].as_str(), parts[idx].as_str(), 70)
                };
                if near {
                    section = String::from_str(parts[idx].as_str());
                    section.append("\n");
                    section.append(link.as_str());
                } else {
                    section = crate::text::replace_all(parts[idx].as_str(), "##", "");
                    section.append("\n");
                    section.append(link.as_str());
                    section.append("\n\n##");
                }
            } else {
                section = String::from_str(" License\n");
                section.append(link.as_str());
                if !is_last_eq {
                    section.append("\n\n##");
                }
            }
            proof {
                reveal_strlit("\n");
                reveal_strlit("\n\n##");
                reveal_strlit(" License\n");
                reveal_strlit("");
                assert(""@ =~= Seq::<char>::empty());
                assert(section@ =~= new_section_spec(
                    pv[idx as int],
                    pv.last(),
                    markdown_link_spec(license.spdx_id@, license.html_url@),
                    multi_license,
                ));
            }
            parts.set(idx, section);
            proof {
                assert(parts.deep_view() =~= pv.update(
                    idx as int,
                    new_section_spec(
                        pv[idx as int],
                        pv.last(),
                        markdown_link_spec(license.spdx_id@, license.html_url@),
                        multi_license,
                    ),
                ));
            }
            crate::text::concat_parts(&parts)
        },
    }
}

/// README content none of whose slices speaks of the license comes back
/// from the replacement exactly as it was.
pub proof fn lemma_replace_section_preserves_unmatched(
    content: Seq<char>,
    link: Seq<char>,
    multi: bool,
)
    requires
        license_slice_index(split_inclusive_spec(content, "##"@)) == -1,
    ensures
        replace_license_section_spec(content, link, multi) == content,
{
    reveal_strlit("##");
    crate::text::lemma_split_concat(content, "##"@);
}

/// A directory holding a file literally named `LICENSE` always yields
/// exactly that path; a directory holding no LICENSE variant yields none.
pub proof fn lemma_license_detection(root: Seq<char>, listing: Seq<Seq<char>>)
    ensures
        listing.contains(path_join(root, "LICENSE"@)) ==> license_lookup(root, listing) == Some(
            path_join(root, "LICENSE"@),
        ),
        !listing.contains(path_join(root, "LICENSE"@)) && !listing.contains(
            path_join(root, "license"@),
        ) && !listing.contains(path_join(root, "License"@)) ==> license_lookup(root, listing)
            is None,
{
}

} // verus!
