//! The license catalog entries and the best-effort matching of an existing
//! license file against them.
//!
//! A catalog entry carries the canonical license text; an on-disk license
//! file is matched against every entry by edit-distance similarity, and the
//! best-scoring entry wins when its score reaches the fixed acceptance
//! threshold of 60 percent.

use vstd::prelude::*;

verus! {

use vstd::string::StringExecFns;
use crate::alike::{alike_spec, lev, lemma_lev_bounds, max2};
use crate::text::replace_all_spec;

/// The abbreviated catalog entry returned by a license listing.
pub struct MiniGithubLicense {
    pub key: String,
    pub name: String,
    pub spdx_id: String,
    pub url: String,
    pub node_id: String,
}

/// A full catalog entry for one known license.
pub struct GithubLicense {
    pub key: String,
    pub name: String,
    pub spdx_id: String,
    pub url: String,
    pub node_id: String,
    pub html_url: String,
    pub description: String,
    pub implementation: String,
    pub permissions: Vec<String>,
    pub conditions: Vec<String>,
    pub limitations: Vec<String>,
    pub body: String,
    pub featured: bool,
}

/// The two catalog entries hold the same data.
pub open spec fn same_license(a: GithubLicense, b: GithubLicense) -> bool {
    &&& a.key@ == b.key@
    &&& a.name@ == b.name@
    &&& a.spdx_id@ == b.spdx_id@
    &&& a.url@ == b.url@
    &&& a.node_id@ == b.node_id@
    &&& a.html_url@ == b.html_url@
    &&& a.description@ == b.description@
    &&& a.implementation@ == b.implementation@
    &&& a.permissions.deep_view() == b.permissions.deep_view()
    &&& a.conditions.deep_view() == b.conditions.deep_view()
    &&& a.limitations.deep_view() == b.limitations.deep_view()
    &&& a.body@ == b.body@
    &&& a.featured == b.featured
}

/// Copies every element of a vector of strings.
fn clone_string_vec(v: &Vec<String>) -> (r: Vec<String>)
    ensures
        r@ == v@,
{
    let mut r: Vec<String> = Vec::new();
    let mut i: usize = 0;
    while i < v.len()
        invariant
            i <= v@.len(),
            r@ == v@.take(i as int),
        decreases v@.len() - i,
    {
        r.push(v[i].clone());
        proof {
            assert(r@ =~= v@.take(i + 1));
        }
        i = i + 1;
    }
    proof {
        assert(r@ =~= v@);
    }
    r
}

/// The markdown text of a license link: a line break, then the SPDX id in
/// brackets, then the web address in parentheses.
pub open spec fn markdown_link_spec(spdx: Seq<char>, url: Seq<char>) -> Seq<char> {
    seq!['\n', '['] + spdx + seq![']', '('] + url + seq![')']
}

impl GithubLicense {
    /// An exact copy of this catalog entry.
    pub fn duplicate(&self) -> (c: GithubLicense)
        ensures
            same_license(c, *self),
    {
        GithubLicense {
            key: self.key.clone(),
            name: self.name.clone(),
            spdx_id: self.spdx_id.clone(),
            url: self.url.clone(),
            node_id: self.node_id.clone(),
            html_url: self.html_url.clone(),
            description: self.description.clone(),
            implementation: self.implementation.clone(),
            permissions: clone_string_vec(&self.permissions),
            conditions: clone_string_vec(&self.conditions),
            limitations: clone_string_vec(&self.limitations),
            body: self.body.clone(),
            featured: self.featured,
        }
    }

    /// Returns a markdown license link built from the SPDX id and the
    /// license's web address.
    pub fn get_markdown_license_link(&self) -> (r: String)
        ensures
            r@ == markdown_link_spec(self.spdx_id@, self.html_url@),
    {
        let mut r: String = String::new();
        r.append("\n[");
        r.append(self.spdx_id.as_str());
        r.append("](");
        r.append(self.html_url.as_str());
        r.append(")");
        proof {
            reveal_strlit("\n[");
            reveal_strlit("](");
            reveal_strlit(")");
            assert(r@ =~= markdown_link_spec(self.spdx_id@, self.html_url@));
        }
        r
    }

    /// Fills the `[fullname]` and `[year]` placeholders of the license body
    /// with the given name and year; every other field is kept.
    pub fn set_username_and_year(self, full_name: &str, year: &str) -> (r: GithubLicense)
        ensures
            r.body@ == replace_all_spec(
                replace_all_spec(self.body@, "[fullname]"@, full_name@),
                "[year]"@,
                year@,
            ),
            r.key@ == self.key@,
            r.name@ == self.name@,
            r.spdx_id@ == self.spdx_id@,
            r.url@ == self.url@,
            r.node_id@ == self.node_id@,
            r.html_url@ == self.html_url@,
            r.description@ == self.description@,
            r.implementation@ == self.implementation@,
            r.permissions@ == self.permissions@,
            r.conditions@ == self.conditions@,
            r.limitations@ == self.limitations@,
            r.featured == self.featured,
    {
        proof {
            reveal_strlit("[fullname]");
            reveal_strlit("[year]");
        }
        let with_name: String = crate::text::replace_all(self.body.as_str(), "[fullname]", full_name);
        let new_body: String = crate::text::replace_all(with_name.as_str(), "[year]", year);
        GithubLicense { body: new_body, ..self }
    }
}

/// The similarity score of `a` against `b` as an exact rational
/// `sim_num / sim_den`; two empty texts score 1/1 (one hundred percent).
pub open spec fn sim_num(a: Seq<char>, b: Seq<char>) -> int {
    let l = max2(a.len() as int, b.len() as int);
    if l == 0 {
        1
    } else {
        l - lev(a, b)
    }
}

/// The denominator of the similarity score of `a` against `b`.
pub open spec fn sim_den(a: Seq<char>, b: Seq<char>) -> int {
    let l = max2(a.len() as int, b.len() as int);
    if l == 0 {
        1
    } else {
        l
    }
}

/// Body `b1` scores strictly higher against `t` than body `b2` does.
pub open spec fn sim_gt(t: Seq<char>, b1: Seq<char>, b2: Seq<char>) -> bool {
    sim_num(b1, t) * sim_den(b2, t) > sim_num(b2, t) * sim_den(b1, t)
}

/// Comparing exact rational scores with positive denominators is
/// transitive across a common middle score.
proof fn lemma_score_chain(aj: int, dj: int, ab: int, db: int, ai: int, di: int)
    requires
        dj >= 1,
        db >= 1,
        di >= 1,
        aj * db <= ab * dj,
        ai * db > ab * di,
    ensures
        ai * dj > aj * di,
{
    assert(ai * dj > aj * di) by (nonlinear_arith)
        requires
            dj >= 1,
            db >= 1,
            di >= 1,
            aj * db <= ab * dj,
            ai * db > ab * di,
    ;
}

/// The similarity score of one catalog body against the given license text,
/// as an exact rational pair (numerator, denominator).
fn score_of(body: &str, content: &str) -> (nd: (u128, u128))
    requires
        body@.len() < usize::MAX,
        content@.len() < usize::MAX,
    ensures
        nd.0 as int == sim_num(body@, content@),
        nd.1 as int == sim_den(body@, content@),
        1 <= nd.1 < 0x10000000000000000,
        nd.0 <= nd.1,
{
    let la: usize = vstd::string::StrSliceExecFns::unicode_len(body);
    let lb: usize = vstd::string::StrSliceExecFns::unicode_len(content);
    let l: usize = if la >= lb {
        la
    } else {
        lb
    };
    if l == 0 {
        (1, 1)
    } else {
        let d: usize = crate::alike::levenshtein(body, content);
        proof {
            lemma_lev_bounds(body@, content@);
        }
        ((l - d) as u128, l as u128)
    }
}

/// Picks from the catalog the best-scoring entry whose similarity with
/// `content` reaches 60 percent, if any; among equal best scores the
/// earliest entry is kept.
pub fn find_license_match(licenses: &Vec<GithubLicense>, content: &str) -> (r: Option<usize>)
    requires
        content@.len() < usize::MAX,
        forall|j: int| 0 <= j < licenses@.len() ==> licenses@[j].body@.len() < usize::MAX,
    ensures
        (r is None) <==> (forall|j: int|
            0 <= j < licenses@.len() ==> !alike_spec(licenses@[j].body@, content@, 60)),
        match r {
            Some(i) => {
                &&& i < licenses@.len()
                &&& alike_spec(licenses@[i as int].body@, content@, 60)
                &&& forall|j: int|
                    0 <= j < licenses@.len() && alike_spec(licenses@[j].body@, content@, 60)
                        ==> !sim_gt(content@, licenses@[j].body@, licenses@[i as int].body@)
                &&& forall|j: int|
                    0 <= j < i ==> !alike_spec(licenses@[j].body@, content@, 60) || sim_gt(
                        content@,
                        licenses@[i as int].body@,
                        licenses@[j].body@,
                    )
            },
            None => true,
        },
{
    let mut best: Option<usize> = None;
    let mut bnum: u128 = 0;
    let mut bden: u128 = 1;
    let mut idx: usize = 0;
    while idx < licenses.len()
        invariant
            content@.len() < usize::MAX,
            forall|j: int| 0 <= j < licenses@.len() ==> licenses@[j].body@.len() < usize::MAX,
            idx <= licenses@.len(),
            match best {
                None => forall|j: int|
                    0 <= j < idx ==> !alike_spec(licenses@[j].body@, content@, 60),
                Some(bi) => {
                    &&& bi < idx
                    &&& alike_spec(licenses@[bi as int].body@, content@, 60)
                    &&& bnum as int == sim_num(licenses@[bi as int].body@, content@)
                    &&& bden as int == sim_den(licenses@[bi as int].body@, content@)
                    &&& 1 <= bden < 0x10000000000000000
                    &&& bnum <= bden
                    &&& forall|j: int|
                        0 <= j < idx && alike_spec(licenses@[j].body@, content@, 60) ==> !sim_gt(
                            content@,
                            licenses@[j].body@,
                            licenses@[bi as int].body@,
                        )
                    &&& forall|j: int|
                        0 <= j < bi ==> !alike_spec(licenses@[j].body@, content@, 60) || sim_gt(
                            content@,
                            licenses@[bi as int].body@,
                            licenses@[j].body@,
                        )
                },
            },
        decreases licenses@.len() - idx,
    {
        let entry: &GithubLicense = &licenses[idx];
        let nd: (u128, u128) = score_of(entry.body.as_str(), content);
        let num: u128 = nd.0;
        let den: u128 = nd.1;
        let passes: bool = 100 * num >= 60 * den;
        proof {
            assert(passes == alike_spec(licenses@[idx as int].body@, content@, 60));
        }
        if passes {
            match best {
                None => {
                    best = Some(idx);
                    bnum = num;
                    bden = den;
                },
                Some(bi) => {
                    proof {
                        assert(num * bden < 0x100000000000000000000000000000000
                            && bnum * den < 0x100000000000000000000000000000000)
                            by (nonlinear_arith)
                            requires
                                num <= den,
                                bnum <= bden,
                                den < 0x10000000000000000,
                                bden < 0x10000000000000000,
                        ;
                    }
                    if num * bden > bnum * den {
                        proof {
                            let t = content@;
                            let bib = licenses@[bi as int].body@;
                            let ib = licenses@[idx as int].body@;
                            assert(sim_gt(t, ib, bib));
                            assert forall|j: int|
                                0 <= j < idx && alike_spec(licenses@[j].body@, t, 60) implies sim_gt(
                                t,
                                ib,
                                licenses@[j].body@,
                            ) by {
                                lemma_lev_bounds(licenses@[j].body@, t);
                                lemma_score_chain(
                                    sim_num(licenses@[j].body@, t),
                                    sim_den(licenses@[j].body@, t),
                                    sim_num(bib, t),
                                    sim_den(bib, t),
                                    sim_num(ib, t),
                                    sim_den(ib, t),
                                );
                            }
                        }
                        best = Some(idx);
                        bnum = num;
                        bden = den;
                    } else {
                        proof {
                            let t = content@;
                            let bib = licenses@[bi as int].body@;
                            let ib = licenses@[idx as int].body@;
                            assert(!sim_gt(t, ib, bib));
                        }
                    }
                },
            }
        }
        idx = idx + 1;
    }
    best
}

} // verus!
