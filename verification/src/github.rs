//! Turning GitHub's answer about a user's repositories into per-language
//! totals, and the request that asks for it.
use vstd::prelude::*;

use crate::error::{AppError, AppErrorView};
use crate::params::SortBy;
use crate::text::{chars_of, lowercase, push_char, push_str, to_lowercase};

verus! {

/// A language entry handed to the card renderer: its name, the colour GitHub
/// gives it, and its totals over the user's repositories.
#[derive(Debug)]
pub struct LanguageStat {
    pub name: String,
    pub color: String,
    pub bytes: u64,
    pub repo_count: u32,
}

/// A language's totals, with unbounded counts.
pub struct LanguageTally {
    pub name: Seq<char>,
    pub color: Seq<char>,
    pub bytes: nat,
    pub repos: nat,
}

impl View for LanguageStat {
    type V = LanguageTally;

    open spec fn view(&self) -> LanguageTally {
        LanguageTally {
            name: self.name@,
            color: self.color@,
            bytes: self.bytes as nat,
            repos: self.repo_count as nat,
        }
    }
}

/// The languages to show, in order, and the byte total of every language
/// that was not excluded (shown or not), which the shares are taken of.
#[derive(Debug)]
pub struct Ranking {
    pub languages: Vec<LanguageStat>,
    pub total_bytes: u64,
}

// ── GraphQL response ─────────────────────────────────────────────────────────

/// GitHub's GraphQL answer.
#[derive(Debug)]
pub struct GqlResponse {
    pub data: Option<GqlData>,
    pub errors: Option<Vec<GqlError>>,
}

#[derive(Debug)]
pub struct GqlData {
    pub user: Option<GqlUser>,
}

#[derive(Debug)]
pub struct GqlUser {
    pub repositories: GqlRepoConnection,
}

#[derive(Debug)]
pub struct GqlRepoConnection {
    pub nodes: Vec<GqlRepo>,
}

#[derive(Debug)]
pub struct GqlRepo {
    pub languages: Option<GqlLanguageConnection>,
}

#[derive(Debug)]
pub struct GqlLanguageConnection {
    pub edges: Vec<GqlLanguageEdge>,
}

/// One language of one repository, with its size in bytes.
#[derive(Debug)]
pub struct GqlLanguageEdge {
    pub size: u64,
    pub node: GqlLanguageNode,
}

#[derive(Debug)]
pub struct GqlLanguageNode {
    pub name: String,
    pub color: Option<String>,
}

#[derive(Debug)]
pub struct GqlError {
    pub message: String,
}

/// One language of one repository, as the totals read it.
pub struct EdgeView {
    pub name: Seq<char>,
    pub size: nat,
    pub color: Option<Seq<char>>,
}

pub open spec fn edge_view(e: GqlLanguageEdge) -> EdgeView {
    EdgeView { name: e.node.name@, size: e.size as nat, color: e.node.color.deep_view() }
}

/// The language edges of one repository; none when GitHub gave no languages.
pub open spec fn edges_of(repo: GqlRepo) -> Seq<EdgeView> {
    match repo.languages {
        None => Seq::empty(),
        Some(l) => l.edges@.map_values(|e: GqlLanguageEdge| edge_view(e)),
    }
}

/// All language edges of all repositories, repository by repository.
pub open spec fn repo_edges(repos: Seq<GqlRepo>) -> Seq<EdgeView>
    decreases repos.len(),
{
    if repos.len() == 0 {
        Seq::empty()
    } else {
        repo_edges(repos.drop_last()) + edges_of(repos.last())
    }
}

// ── Totals per language ──────────────────────────────────────────────────────

/// The colour used for a language that GitHub gives none.
pub open spec fn fallback_color() -> Seq<char> {
    "#8b949e"@
}

/// Index of the first entry named `name`, or the length when there is none.
pub open spec fn position_of(t: Seq<LanguageTally>, name: Seq<char>) -> int
    decreases t.len(),
{
    if t.len() == 0 {
        0
    } else if t[0].name == name {
        0
    } else {
        1 + position_of(t.drop_first(), name)
    }
}

/// `t` after counting one more edge: its language's bytes grow by the edge's
/// size and its repository count by one; a language seen for the first time
/// is appended with the colour of this first edge.
pub open spec fn add_edge(t: Seq<LanguageTally>, e: EdgeView) -> Seq<LanguageTally> {
    let k = position_of(t, e.name);
    if k < t.len() {
        t.update(k, LanguageTally { bytes: t[k].bytes + e.size, repos: t[k].repos + 1, ..t[k] })
    } else {
        t.push(
            LanguageTally {
                name: e.name,
                color: match e.color {
                    Some(c) => c,
                    None => fallback_color(),
                },
                bytes: e.size,
                repos: 1,
            },
        )
    }
}

/// Totals per language, in the order the languages first appear.
pub open spec fn tally(edges: Seq<EdgeView>) -> Seq<LanguageTally>
    decreases edges.len(),
{
    if edges.len() == 0 {
        Seq::empty()
    } else {
        add_edge(tally(edges.drop_last()), edges.last())
    }
}

/// Every total fits the integer type it is kept in.
pub open spec fn tally_fits(t: Seq<LanguageTally>) -> bool {
    forall|k: int|
        #![trigger t[k]]
        0 <= k < t.len() ==> t[k].bytes <= u64::MAX && t[k].repos <= u32::MAX
}

/// `a` is `b` with some counts possibly smaller and some entries missing at
/// the end.
pub open spec fn tally_below(a: Seq<LanguageTally>, b: Seq<LanguageTally>) -> bool {
    &&& a.len() <= b.len()
    &&& forall|k: int|
        #![trigger a[k]]
        0 <= k < a.len() ==> a[k].name == b[k].name && a[k].bytes <= b[k].bytes && a[k].repos
            <= b[k].repos
}

pub proof fn lemma_position_of(t: Seq<LanguageTally>, name: Seq<char>, i: int)
    requires
        0 <= i <= t.len(),
        forall|j: int| 0 <= j < i ==> #[trigger] t[j].name != name,
        i == t.len() || t[i].name == name,
    ensures
        position_of(t, name) == i,
    decreases t.len(),
{
    if t.len() > 0 && i > 0 {
        assert forall|j: int| 0 <= j < i - 1 implies #[trigger] t.drop_first()[j].name != name by {
            assert(t.drop_first()[j] == t[j + 1]);
        }
        lemma_position_of(t.drop_first(), name, i - 1);
    }
}

pub proof fn lemma_position_of_bounds(t: Seq<LanguageTally>, name: Seq<char>)
    ensures
        0 <= position_of(t, name) <= t.len(),
        position_of(t, name) < t.len() ==> t[position_of(t, name)].name == name,
    decreases t.len(),
{
    if t.len() > 0 && t[0].name != name {
        lemma_position_of_bounds(t.drop_first(), name);
    }
}

/// Counting more edges never lowers a total nor moves an entry.
pub proof fn lemma_tally_grows(a: Seq<EdgeView>, b: Seq<EdgeView>)
    ensures
        tally_below(tally(a), tally(a + b)),
    decreases b.len(),
{
    if b.len() == 0 {
        assert(a + b == a);
    } else {
        lemma_tally_grows(a, b.drop_last());
        assert((a + b).drop_last() == a + b.drop_last());
        let t = tally(a + b.drop_last());
        lemma_position_of_bounds(t, b.last().name);
    }
}

pub proof fn lemma_repo_edges_prefix(repos: Seq<GqlRepo>, r: int)
    requires
        0 <= r <= repos.len(),
    ensures
        repo_edges(repos) == repo_edges(repos.take(r)) + repo_edges(repos.skip(r)),
    decreases repos.len(),
{
    if r == repos.len() {
        assert(repos.take(r) == repos);
        assert(repos.skip(r) == Seq::<GqlRepo>::empty());
        assert(repo_edges(repos.skip(r)) == Seq::<EdgeView>::empty());
    } else {
        lemma_repo_edges_prefix(repos.drop_last(), r);
        assert(repos.drop_last().take(r) == repos.take(r));
        assert(repos.skip(r).drop_last() == repos.drop_last().skip(r));
        assert(repos.skip(r).last() == repos.last());
    }
}

fn copy_stat(s: &LanguageStat) -> (r: LanguageStat)
    ensures
        r@ == s@,
{
    LanguageStat {
        name: s.name.clone(),
        color: s.color.clone(),
        bytes: s.bytes,
        repo_count: s.repo_count,
    }
}

fn copy_string(s: &String) -> (r: String)
    ensures
        r@ == s@,
{
    s.clone()
}

/// Adds one edge to the totals; `false` (totals unchanged) when a total would
/// no longer fit.
fn add_edge_exec(t: &mut Vec<LanguageStat>, e: &GqlLanguageEdge) -> (ok: bool)
    ensures
        ok ==> final(t)@.map_values(|s: LanguageStat| s@) == add_edge(
            old(t)@.map_values(|s: LanguageStat| s@),
            edge_view(*e),
        ),
        !ok ==> !tally_fits(add_edge(old(t)@.map_values(|s: LanguageStat| s@), edge_view(*e))),
{
    let ghost tv = t@.map_values(|s: LanguageStat| s@);
    let mut k: usize = 0;
    while k < t.len() && !(t[k].name == e.node.name)
        invariant
            k <= t@.len(),
            tv == t@.map_values(|s: LanguageStat| s@),
            forall|j: int| 0 <= j < k ==> #[trigger] tv[j].name != e.node.name@,
        decreases t.len() - k,
    {
        k = k + 1;
    }
    proof {
        lemma_position_of(tv, e.node.name@, k as int);
    }
    if k < t.len() {
        let old_entry = &t[k];
        let bytes = match old_entry.bytes.checked_add(e.size) {
            Some(b) => b,
            None => {
                assert(!tally_fits(add_edge(tv, edge_view(*e)))) by {
                    assert(add_edge(tv, edge_view(*e))[k as int].bytes > u64::MAX);
                }
                return false;
            },
        };
        let repos = match old_entry.repo_count.checked_add(1) {
            Some(r) => r,
            None => {
                assert(!tally_fits(add_edge(tv, edge_view(*e)))) by {
                    assert(add_edge(tv, edge_view(*e))[k as int].repos > u32::MAX);
                }
                return false;
            },
        };
        let entry = LanguageStat {
            name: copy_string(&old_entry.name),
            color: copy_string(&old_entry.color),
            bytes,
            repo_count: repos,
        };
        t.set(k, entry);
        assert(t@.map_values(|s: LanguageStat| s@) == add_edge(tv, edge_view(*e)));
    } else {
        let color = match &e.node.color {
            Some(c) => copy_string(c),
            None => String::from_str("#8b949e"),
        };
        t.push(
            LanguageStat { name: copy_string(&e.node.name), color, bytes: e.size, repo_count: 1 },
        );
        assert(t@.map_values(|s: LanguageStat| s@) == add_edge(tv, edge_view(*e)));
    }
    true
}

/// Totals per language over all repositories; `None` when a total does not
/// fit its integer type.
pub fn tally_repos(repos: &Vec<GqlRepo>) -> (r: Option<Vec<LanguageStat>>)
    ensures
        match r {
            Some(t) => t@.map_values(|s: LanguageStat| s@) == tally(repo_edges(repos@))
                && tally_fits(tally(repo_edges(repos@))),
            None => !tally_fits(tally(repo_edges(repos@))),
        },
{
    let mut t: Vec<LanguageStat> = Vec::new();
    let ghost all = repo_edges(repos@);
    let mut r: usize = 0;
    assert(repos@.take(0) == Seq::<GqlRepo>::empty());
    while r < repos.len()
        invariant
            r <= repos@.len(),
            all == repo_edges(repos@),
            t@.map_values(|s: LanguageStat| s@) == tally(repo_edges(repos@.take(r as int))),
            tally_fits(tally(repo_edges(repos@.take(r as int)))),
        decreases repos.len() - r,
    {
        let ghost done = repo_edges(repos@.take(r as int));
        assert(repos@.take(r + 1).drop_last() == repos@.take(r as int));
        assert(repos@.take(r + 1).last() == repos@[r as int]);
        proof {
            lemma_repo_edges_prefix(repos@, r + 1);
        }
        match &repos[r].languages {
            None => {
                assert(repo_edges(repos@.take(r + 1)) == done + Seq::<EdgeView>::empty());
                assert(done + Seq::<EdgeView>::empty() == done);
            },
            Some(langs) => {
                let ghost es = langs.edges@.map_values(|e: GqlLanguageEdge| edge_view(e));
                assert(repo_edges(repos@.take(r + 1)) == done + es);
                let mut i: usize = 0;
                assert(es.take(0) == Seq::<EdgeView>::empty());
                assert(done + es.take(0) == done);
                while i < langs.edges.len()
                    invariant
                        i <= langs.edges@.len(),
                        es == langs.edges@.map_values(|e: GqlLanguageEdge| edge_view(e)),
                        all == repo_edges(repos@),
                        all == repo_edges(repos@.take(r + 1)) + repo_edges(repos@.skip(r + 1)),
                        repo_edges(repos@.take(r + 1)) == done + es,
                        t@.map_values(|s: LanguageStat| s@) == tally(done + es.take(i as int)),
                    decreases langs.edges.len() - i,
                {
                    let ghost before = done + es.take(i as int);
                    assert(done + es.take(i + 1) == before.push(es[i as int]));
                    assert((done + es.take(i + 1)).drop_last() == before);
                    if !add_edge_exec(&mut t, &langs.edges[i]) {
                        proof {
                            let p = done + es.take(i + 1);
                            let rest = es.skip(i + 1) + repo_edges(repos@.skip(r + 1));
                            assert(p + rest == all);
                            lemma_tally_grows(p, rest);
                            let tp = tally(p);
                            let ta = tally(all);
                            let bad = choose|k: int|
                                0 <= k < tp.len() && !(tp[k].bytes <= u64::MAX && tp[k].repos
                                    <= u32::MAX);
                            assert(ta[bad].bytes >= tp[bad].bytes);
                            assert(!tally_fits(ta));
                        }
                        return None;
                    }
                    i = i + 1;
                }
                assert(es.take(i as int) == es);
            },
        }
        proof {
            let p = repo_edges(repos@.take(r + 1));
            lemma_tally_grows(p, repo_edges(repos@.skip(r + 1)));
            let tp = tally(p);
            let ta = tally(all);
            assert forall|k: int| 0 <= k < tp.len() implies #[trigger] tp[k].bytes <= u64::MAX
                && tp[k].repos <= u32::MAX by {
                assert(tp[k].bytes <= ta[k].bytes);
            }
        }
        r = r + 1;
    }
    assert(repos@.take(r as int) == repos@);
    Some(t)
}


// ── Exclusion, order, total ──────────────────────────────────────────────────

/// A language is excluded when its lowercased name is in the (lowercased)
/// exclusion list.
pub open spec fn is_excluded(name: Seq<char>, exclude: Seq<Seq<char>>) -> bool {
    exclude.contains(lowercase(name))
}

/// The entries that are not excluded, in their order.
pub open spec fn drop_excluded(t: Seq<LanguageTally>, exclude: Seq<Seq<char>>) -> Seq<
    LanguageTally,
>
    decreases t.len(),
{
    if t.len() == 0 {
        t
    } else {
        let init = drop_excluded(t.drop_last(), exclude);
        if is_excluded(t.last().name, exclude) {
            init
        } else {
            init.push(t.last())
        }
    }
}

/// The total that orders the card.
pub open spec fn sort_key(t: LanguageTally, by: SortBy) -> nat {
    match by {
        SortBy::Bytes => t.bytes,
        SortBy::Repos => t.repos,
    }
}

/// Where `x` goes in `sorted` (largest first): after every entry whose key is
/// at least its own.
pub open spec fn insert_pos(sorted: Seq<LanguageTally>, x: LanguageTally, by: SortBy) -> int
    decreases sorted.len(),
{
    if sorted.len() == 0 {
        0
    } else if sort_key(sorted[0], by) < sort_key(x, by) {
        0
    } else {
        1 + insert_pos(sorted.drop_first(), x, by)
    }
}

/// `s` ordered by key, largest first; entries with equal keys keep their
/// order (a stable sort).
pub open spec fn sort_desc(s: Seq<LanguageTally>, by: SortBy) -> Seq<LanguageTally>
    decreases s.len(),
{
    if s.len() == 0 {
        s
    } else {
        let r = sort_desc(s.drop_last(), by);
        r.insert(insert_pos(r, s.last(), by), s.last())
    }
}

/// The sum of the byte totals.
pub open spec fn total_bytes(t: Seq<LanguageTally>) -> nat
    decreases t.len(),
{
    if t.len() == 0 {
        0
    } else {
        total_bytes(t.drop_last()) + t.last().bytes
    }
}

/// The messages joined with `"; "` between them.
pub open spec fn join_messages(msgs: Seq<Seq<char>>) -> Seq<char>
    decreases msgs.len(),
{
    if msgs.len() == 0 {
        Seq::empty()
    } else if msgs.len() == 1 {
        msgs[0]
    } else {
        join_messages(msgs.drop_last()) + "; "@ + msgs.last()
    }
}

/// `Ranking` with unbounded counts.
pub struct RankingView {
    pub languages: Seq<LanguageTally>,
    pub total_bytes: nat,
}

impl View for Ranking {
    type V = RankingView;

    open spec fn view(&self) -> RankingView {
        RankingView {
            languages: self.languages@.map_values(|s: LanguageStat| s@),
            total_bytes: self.total_bytes as nat,
        }
    }
}

pub open spec fn not_found_message(username: Seq<char>) -> Seq<char> {
    "user '"@ + username + "' not found"@
}

pub open spec fn no_data_message(username: Seq<char>) -> Seq<char> {
    "no public repository language data found for '"@ + username + "'"@
}

/// What `aggregate` answers: GitHub's errors, if any, joined; an error when
/// the user is unknown or has no language data at all; otherwise the totals
/// per language without the excluded ones, largest first by the chosen key,
/// cut to `limit`, and the byte total of all that were not excluded.
pub open spec fn aggregate_result(
    gql: GqlResponse,
    username: Seq<char>,
    limit: u8,
    sort_by: SortBy,
    exclude: Seq<Seq<char>>,
) -> Result<RankingView, AppErrorView> {
    match gql.errors {
        Some(errs) => Err(
            AppErrorView::GitHub(join_messages(errs@.map_values(|e: GqlError| e.message@))),
        ),
        None => match gql.data {
            Some(GqlData { user: Some(user) }) => {
                let t = tally(repo_edges(user.repositories.nodes@));
                if t.len() == 0 {
                    Err(AppErrorView::GitHub(no_data_message(username)))
                } else {
                    let kept = drop_excluded(t, exclude);
                    let sorted = sort_desc(kept, sort_by);
                    let n = if (limit as int) < sorted.len() {
                        limit as int
                    } else {
                        sorted.len() as int
                    };
                    Ok(RankingView { languages: sorted.take(n), total_bytes: total_bytes(kept) })
                }
            },
            _ => Err(AppErrorView::GitHub(not_found_message(username))),
        },
    }
}

/// The totals that `aggregate` keeps fit their integer types (otherwise the
/// additions overflow).
pub open spec fn aggregate_fits(gql: GqlResponse, exclude: Seq<Seq<char>>) -> bool {
    match gql.errors {
        Some(_) => true,
        None => match gql.data {
            Some(GqlData { user: Some(user) }) => {
                let t = tally(repo_edges(user.repositories.nodes@));
                tally_fits(t) && total_bytes(drop_excluded(t, exclude)) <= u64::MAX
            },
            _ => true,
        },
    }
}

pub proof fn lemma_insert_pos(sorted: Seq<LanguageTally>, x: LanguageTally, by: SortBy, i: int)
    requires
        0 <= i <= sorted.len(),
        forall|j: int| 0 <= j < i ==> sort_key(#[trigger] sorted[j], by) >= sort_key(x, by),
        i == sorted.len() || sort_key(sorted[i], by) < sort_key(x, by),
    ensures
        insert_pos(sorted, x, by) == i,
    decreases sorted.len(),
{
    if sorted.len() > 0 && i > 0 {
        assert forall|j: int| 0 <= j < i - 1 implies sort_key(
            #[trigger] sorted.drop_first()[j],
            by,
        ) >= sort_key(x, by) by {
            assert(sorted.drop_first()[j] == sorted[j + 1]);
        }
        lemma_insert_pos(sorted.drop_first(), x, by, i - 1);
    }
}

pub proof fn lemma_insert_pos_bounds(sorted: Seq<LanguageTally>, x: LanguageTally, by: SortBy)
    ensures
        0 <= insert_pos(sorted, x, by) <= sorted.len(),
    decreases sorted.len(),
{
    if sorted.len() > 0 && sort_key(sorted[0], by) >= sort_key(x, by) {
        lemma_insert_pos_bounds(sorted.drop_first(), x, by);
    }
}

pub proof fn lemma_sort_len(s: Seq<LanguageTally>, by: SortBy)
    ensures
        sort_desc(s, by).len() == s.len(),
    decreases s.len(),
{
    if s.len() > 0 {
        lemma_sort_len(s.drop_last(), by);
        lemma_insert_pos_bounds(sort_desc(s.drop_last(), by), s.last(), by);
    }
}

pub proof fn lemma_total_prefix(t: Seq<LanguageTally>, k: int)
    requires
        0 <= k <= t.len(),
    ensures
        total_bytes(t.take(k)) <= total_bytes(t),
    decreases t.len(),
{
    if k < t.len() {
        assert(t.drop_last().take(k) == t.take(k));
        lemma_total_prefix(t.drop_last(), k);
    } else {
        assert(t.take(k) == t);
    }
}

fn sort_value(s: &LanguageStat, by: SortBy) -> (k: u64)
    ensures
        k == sort_key(s@, by),
{
    match by {
        SortBy::Bytes => s.bytes,
        SortBy::Repos => s.repo_count as u64,
    }
}

fn is_excluded_exec(name: &String, exclude: &[String]) -> (b: bool)
    ensures
        b == is_excluded(name@, exclude@.map_values(|s: String| s@)),
{
    let lname = to_lowercase(name.as_str());
    let ghost ex = exclude@.map_values(|s: String| s@);
    let mut j: usize = 0;
    while j < exclude.len()
        invariant
            j <= exclude@.len(),
            ex == exclude@.map_values(|s: String| s@),
            lname@ == lowercase(name@),
            forall|i: int| 0 <= i < j ==> #[trigger] ex[i] != lname@,
        decreases exclude.len() - j,
    {
        if exclude[j] == lname {
            assert(ex[j as int] == lname@);
            return true;
        }
        j = j + 1;
    }
    false
}

/// The entries that are not excluded.
fn keep_included(t: &Vec<LanguageStat>, exclude: &[String]) -> (out: Vec<LanguageStat>)
    ensures
        out@.map_values(|s: LanguageStat| s@) == drop_excluded(
            t@.map_values(|s: LanguageStat| s@),
            exclude@.map_values(|s: String| s@),
        ),
{
    let ghost tv = t@.map_values(|s: LanguageStat| s@);
    let ghost ex = exclude@.map_values(|s: String| s@);
    let mut out: Vec<LanguageStat> = Vec::new();
    let mut i: usize = 0;
    while i < t.len()
        invariant
            i <= t@.len(),
            tv == t@.map_values(|s: LanguageStat| s@),
            ex == exclude@.map_values(|s: String| s@),
            out@.map_values(|s: LanguageStat| s@) == drop_excluded(tv.take(i as int), ex),
        decreases t.len() - i,
    {
        assert(tv.take(i + 1).drop_last() == tv.take(i as int));
        if !is_excluded_exec(&t[i].name, exclude) {
            let ghost before = out@.map_values(|s: LanguageStat| s@);
            out.push(copy_stat(&t[i]));
            assert(out@.map_values(|s: LanguageStat| s@) == before.push(tv[i as int]));
        }
        i = i + 1;
    }
    assert(tv.take(i as int) == tv);
    out
}

/// Orders the entries by key, largest first, keeping the order of equal keys.
fn sort_by_key_desc(t: Vec<LanguageStat>, by: SortBy) -> (out: Vec<LanguageStat>)
    ensures
        out@.map_values(|s: LanguageStat| s@) == sort_desc(t@.map_values(|s: LanguageStat| s@), by),
{
    let ghost tv = t@.map_values(|s: LanguageStat| s@);
    let mut out: Vec<LanguageStat> = Vec::new();
    let mut i: usize = 0;
    while i < t.len()
        invariant
            i <= t@.len(),
            tv == t@.map_values(|s: LanguageStat| s@),
            out@.map_values(|s: LanguageStat| s@) == sort_desc(tv.take(i as int), by),
            out@.len() == i,
        decreases t.len() - i,
    {
        let ghost ov = out@.map_values(|s: LanguageStat| s@);
        let key = sort_value(&t[i], by);
        let mut k: usize = 0;
        while k < out.len() && sort_value(&out[k], by) >= key
            invariant
                k <= out@.len(),
                ov == out@.map_values(|s: LanguageStat| s@),
                key == sort_key(tv[i as int], by),
                forall|j: int| 0 <= j < k ==> sort_key(#[trigger] ov[j], by) >= key,
            decreases out.len() - k,
        {
            k = k + 1;
        }
        proof {
            lemma_insert_pos(ov, tv[i as int], by, k as int);
            assert(tv.take(i + 1).drop_last() == tv.take(i as int));
            assert(tv.take(i + 1).last() == tv[i as int]);
        }
        out.insert(k, copy_stat(&t[i]));
        assert(out@.map_values(|s: LanguageStat| s@) == ov.insert(k as int, tv[i as int]));
        i = i + 1;
    }
    assert(tv.take(i as int) == tv);
    out
}

/// The sum of the byte totals, where it fits.
fn sum_bytes(t: &Vec<LanguageStat>) -> (total: u64)
    requires
        total_bytes(t@.map_values(|s: LanguageStat| s@)) <= u64::MAX,
    ensures
        total == total_bytes(t@.map_values(|s: LanguageStat| s@)),
{
    let ghost tv = t@.map_values(|s: LanguageStat| s@);
    let mut total: u64 = 0;
    let mut i: usize = 0;
    while i < t.len()
        invariant
            i <= t@.len(),
            tv == t@.map_values(|s: LanguageStat| s@),
            total_bytes(tv) <= u64::MAX,
            total == total_bytes(tv.take(i as int)),
        decreases t.len() - i,
    {
        assert(tv.take(i + 1).drop_last() == tv.take(i as int));
        proof {
            lemma_total_prefix(tv, i + 1);
        }
        total = total + t[i].bytes;
        i = i + 1;
    }
    assert(tv.take(i as int) == tv);
    total
}

fn join_error_messages(errs: &Vec<GqlError>) -> (m: String)
    ensures
        m@ == join_messages(errs@.map_values(|e: GqlError| e.message@)),
{
    let ghost ms = errs@.map_values(|e: GqlError| e.message@);
    let mut m = String::new();
    let mut i: usize = 0;
    while i < errs.len()
        invariant
            i <= errs@.len(),
            ms == errs@.map_values(|e: GqlError| e.message@),
            m@ == join_messages(ms.take(i as int)),
        decreases errs.len() - i,
    {
        assert(ms.take(i + 1).drop_last() == ms.take(i as int));
        if i > 0 {
            push_str(&mut m, "; ");
        } else {
            assert(m@ == Seq::<char>::empty());
        }
        push_str(&mut m, errs[i].message.as_str());
        i = i + 1;
    }
    assert(ms.take(i as int) == ms);
    m
}

/// Sums GitHub's per-repository language sizes into per-language totals,
/// drops the excluded languages, orders the rest and keeps the first `limit`.
pub fn aggregate(
    gql: GqlResponse,
    username: &str,
    limit: u8,
    sort_by: SortBy,
    exclude: &[String],
) -> (r: Result<Ranking, AppError>)
    requires
        aggregate_fits(gql, exclude@.map_values(|s: String| s@)),
    ensures
        match r {
            Ok(k) => aggregate_result(
                gql,
                username@,
                limit,
                sort_by,
                exclude@.map_values(|s: String| s@),
            ) == Ok::<RankingView, AppErrorView>(k@),
            Err(e) => aggregate_result(
                gql,
                username@,
                limit,
                sort_by,
                exclude@.map_values(|s: String| s@),
            ) == Err::<RankingView, AppErrorView>(e@),
        },
{
    let ghost g = gql;
    if let Some(errors) = &gql.errors {
        return Err(AppError::GitHub(join_error_messages(errors)));
    }
    let user = match &gql.data {
        Some(GqlData { user: Some(user) }) => user,
        _ => {
            let mut m = String::new();
            push_str(&mut m, "user '");
            push_str(&mut m, username);
            push_str(&mut m, "' not found");
            return Err(AppError::GitHub(m));
        },
    };
    let t = match tally_repos(&user.repositories.nodes) {
        Some(t) => t,
        None => {
            // The precondition says the totals fit, so `tally_repos` found them fitting.
            proof {
                assert(false);
            }
            return vstd::pervasive::unreached();
        },
    };
    if t.len() == 0 {
        let mut m = String::new();
        push_str(&mut m, "no public repository language data found for '");
        push_str(&mut m, username);
        push_str(&mut m, "'");
        return Err(AppError::GitHub(m));
    }
    let kept = keep_included(&t, exclude);
    let total_bytes = sum_bytes(&kept);
    let sorted = sort_by_key_desc(kept, sort_by);
    let ghost sv = sorted@.map_values(|s: LanguageStat| s@);
    let n: usize = if (limit as usize) < sorted.len() {
        limit as usize
    } else {
        sorted.len()
    };
    let mut languages: Vec<LanguageStat> = Vec::new();
    let mut i: usize = 0;
    while i < n
        invariant
            i <= n <= sorted@.len(),
            sv == sorted@.map_values(|s: LanguageStat| s@),
            languages@.map_values(|s: LanguageStat| s@) == sv.take(i as int),
        decreases n - i,
    {
        languages.push(copy_stat(&sorted[i]));
        assert(sv.take(i + 1) == sv.take(i as int).push(sv[i as int]));
        i = i + 1;
    }
    Ok(Ranking { languages, total_bytes })
}


/// The sum of the byte totals; `None` when it does not fit a `u64`.
fn checked_sum_bytes(t: &Vec<LanguageStat>) -> (total: Option<u64>)
    ensures
        match total {
            Some(n) => n == total_bytes(t@.map_values(|s: LanguageStat| s@)),
            None => total_bytes(t@.map_values(|s: LanguageStat| s@)) > u64::MAX,
        },
{
    let ghost tv = t@.map_values(|s: LanguageStat| s@);
    let mut total: u64 = 0;
    let mut i: usize = 0;
    while i < t.len()
        invariant
            i <= t@.len(),
            tv == t@.map_values(|s: LanguageStat| s@),
            total == total_bytes(tv.take(i as int)),
        decreases t.len() - i,
    {
        assert(tv.take(i + 1).drop_last() == tv.take(i as int));
        match total.checked_add(t[i].bytes) {
            Some(n) => {
                total = n;
            },
            None => {
                proof {
                    lemma_total_prefix(tv, i + 1);
                }
                return None;
            },
        }
        i = i + 1;
    }
    assert(tv.take(i as int) == tv);
    Some(total)
}

/// Whether `aggregate` may be called: every total it keeps fits its integer
/// type. Where this is false the sums overflow.
pub fn totals_fit(gql: &GqlResponse, exclude: &[String]) -> (b: bool)
    ensures
        b == aggregate_fits(*gql, exclude@.map_values(|s: String| s@)),
{
    if gql.errors.is_some() {
        return true;
    }
    match &gql.data {
        Some(GqlData { user: Some(user) }) => match tally_repos(&user.repositories.nodes) {
            None => false,
            Some(t) => {
                let kept = keep_included(&t, exclude);
                checked_sum_bytes(&kept).is_some()
            },
        },
        _ => true,
    }
}


// ── The request ──────────────────────────────────────────────────────────────

/// The GraphQL query for a user's repositories and their languages. There are
/// no privacy or fork filters: every repository the token can see counts, so
/// that accounts with only private or forked repositories still get results.
pub const GRAPHQL_QUERY: &'static str = "\n            query($login: String!) {\n              user(login: $login) {\n                repositories(\n                  first: 100\n                  ownerAffiliations: [OWNER, COLLABORATOR]\n                ) {\n                  nodes {\n                    languages(first: 10, orderBy: { field: SIZE, direction: DESC }) {\n                      edges { size node { name color } }\n                    }\n                  }\n                }\n              }\n            }\n        ";

/// The hex digit for `d < 16`, lowercase.
pub open spec fn hex_char(d: nat) -> char {
    if d < 10 {
        ((d + 48) as u8) as char
    } else {
        ((d + 87) as u8) as char
    }
}

/// One character inside a JSON string, escaped as `serde_json` writes it:
/// quote and backslash with a backslash, control characters by their short
/// escape or as `\u00XX`, everything else as it is.
pub open spec fn json_escape_char(c: char) -> Seq<char> {
    if c == '"' {
        seq!['\\', '"']
    } else if c == '\\' {
        seq!['\\', '\\']
    } else if c == '\n' {
        seq!['\\', 'n']
    } else if c == '\r' {
        seq!['\\', 'r']
    } else if c == '\t' {
        seq!['\\', 't']
    } else if c == '\u{8}' {
        seq!['\\', 'b']
    } else if c == '\u{c}' {
        seq!['\\', 'f']
    } else if (c as u32) < 0x20 {
        seq!['\\', 'u', '0', '0', hex_char((c as u32 / 16) as nat), hex_char((c as u32 % 16) as nat)]
    } else {
        seq![c]
    }
}

/// The text of `s` inside a JSON string.
pub open spec fn json_escape(s: Seq<char>) -> Seq<char>
    decreases s.len(),
{
    if s.len() == 0 {
        Seq::empty()
    } else {
        json_escape(s.drop_last()) + json_escape_char(s.last())
    }
}

/// `s` as a JSON string literal.
pub open spec fn json_string(s: Seq<char>) -> Seq<char> {
    seq!['"'] + json_escape(s) + seq!['"']
}

/// The request body: `{"query":…,"variables":{"login":…}}`, compact, keys
/// in this order.
pub open spec fn graphql_request(username: Seq<char>) -> Seq<char> {
    "{\"query\":"@ + json_string(GRAPHQL_QUERY@) + ",\"variables\":{\"login\":"@ + json_string(
        username,
    ) + "}}"@
}

/// Appends `s` as a JSON string literal.
fn push_json_string(out: &mut String, s: &str)
    ensures
        final(out)@ == old(out)@ + json_string(s@),
{
    let cs = chars_of(s);
    push_char(out, '"');
    let ghost start = out@;
    let mut i: usize = 0;
    while i < cs.len()
        invariant
            i <= cs@.len(),
            cs@ == s@,
            out@ == start + json_escape(cs@.take(i as int)),
        decreases cs.len() - i,
    {
        let c = cs[i];
        assert(cs@.take(i + 1).drop_last() == cs@.take(i as int));
        let ghost before = out@;
        if c == '"' {
            push_char(out, '\\');
            push_char(out, '"');
        } else if c == '\\' {
            push_char(out, '\\');
            push_char(out, '\\');
        } else if c == '\n' {
            push_char(out, '\\');
            push_char(out, 'n');
        } else if c == '\r' {
            push_char(out, '\\');
            push_char(out, 'r');
        } else if c == '\t' {
            push_char(out, '\\');
            push_char(out, 't');
        } else if c == '\u{8}' {
            push_char(out, '\\');
            push_char(out, 'b');
        } else if c == '\u{c}' {
            push_char(out, '\\');
            push_char(out, 'f');
        } else if (c as u32) < 0x20 {
            let v = c as u32;
            let hi = (v / 16) as u8;
            let lo = (v % 16) as u8;
            push_char(out, '\\');
            push_char(out, 'u');
            push_char(out, '0');
            push_char(out, '0');
            push_char(out, (hi + 48) as char);
            push_char(out, if lo < 10 { (lo + 48) as char } else { (lo + 87) as char });
        } else {
            push_char(out, c);
        }
        assert(out@ == before + json_escape_char(c));
        i = i + 1;
    }
    assert(cs@.take(i as int) == s@);
    push_char(out, '"');
}

/// The GraphQL request body asking for `username`'s repositories.
pub fn graphql_body(username: &str) -> (body: String)
    ensures
        body@ == graphql_request(username@),
{
    let mut body = String::new();
    push_str(&mut body, "{\"query\":");
    push_json_string(&mut body, GRAPHQL_QUERY);
    push_str(&mut body, ",\"variables\":{\"login\":");
    push_json_string(&mut body, username);
    push_str(&mut body, "}}");
    body
}

/// Whether an HTTP status code reports success (2xx).
pub open spec fn is_success(code: u16) -> bool {
    200 <= code <= 299
}

/// GitHub's answer is read only after a successful status; otherwise the
/// status line (`status_text`, such as `404 Not Found`) is reported.
pub fn check_status(code: u16, status_text: &str) -> (r: Result<(), AppError>)
    ensures
        is_success(code) ==> r is Ok,
        !is_success(code) ==> (r matches Err(e) && e@ == AppErrorView::GitHub(
            "GitHub API returned status "@ + status_text@,
        )),
{
    if 200 <= code && code <= 299 {
        Ok(())
    } else {
        let mut m = String::new();
        push_str(&mut m, "GitHub API returned status ");
        push_str(&mut m, status_text);
        Err(AppError::GitHub(m))
    }
}


/// A string with no quote, backslash or control character stands in JSON as
/// it is; in particular a valid GitHub login goes into the request verbatim.
pub proof fn lemma_json_escape_plain(s: Seq<char>)
    requires
        forall|i: int|
            0 <= i < s.len() ==> #[trigger] s[i] != '"' && s[i] != '\\' && (s[i] as u32) >= 0x20,
    ensures
        json_escape(s) == s,
    decreases s.len(),
{
    if s.len() > 0 {
        lemma_json_escape_plain(s.drop_last());
        assert(s.drop_last().push(s.last()) == s);
    }
}

// ── Laws ─────────────────────────────────────────────────────────────────────

/// Ordered by key, largest first.
pub open spec fn sorted_desc(s: Seq<LanguageTally>, by: SortBy) -> bool {
    forall|i: int, j: int|
        0 <= i < j < s.len() ==> sort_key(#[trigger] s[i], by) >= sort_key(#[trigger] s[j], by)
}

/// No language appears twice.
pub open spec fn distinct_names(s: Seq<LanguageTally>) -> bool {
    forall|i: int, j: int| 0 <= i < j < s.len() ==> (#[trigger] s[i]).name != (#[trigger] s[j]).name
}

proof fn lemma_insert_pos_props(r: Seq<LanguageTally>, x: LanguageTally, by: SortBy)
    ensures
        0 <= insert_pos(r, x, by) <= r.len(),
        forall|j: int|
            0 <= j < insert_pos(r, x, by) ==> sort_key(#[trigger] r[j], by) >= sort_key(x, by),
        insert_pos(r, x, by) < r.len() ==> sort_key(r[insert_pos(r, x, by)], by) < sort_key(
            x,
            by,
        ),
    decreases r.len(),
{
    if r.len() > 0 && sort_key(r[0], by) >= sort_key(x, by) {
        let d = r.drop_first();
        lemma_insert_pos_props(d, x, by);
        assert forall|j: int| 0 <= j < insert_pos(r, x, by) implies sort_key(#[trigger] r[j], by)
            >= sort_key(x, by) by {
            if j > 0 {
                assert(r[j] == d[j - 1]);
            }
        }
        if insert_pos(r, x, by) < r.len() {
            assert(r[insert_pos(r, x, by)] == d[insert_pos(d, x, by)]);
        }
    }
}

/// The order is by key, largest first.
pub proof fn lemma_sort_desc_sorted(s: Seq<LanguageTally>, by: SortBy)
    ensures
        sorted_desc(sort_desc(s, by), by),
    decreases s.len(),
{
    if s.len() > 0 {
        lemma_sort_desc_sorted(s.drop_last(), by);
        let r = sort_desc(s.drop_last(), by);
        let x = s.last();
        lemma_insert_pos_props(r, x, by);
        let k = insert_pos(r, x, by);
        let o = r.insert(k, x);
        assert forall|i: int, j: int| 0 <= i < j < o.len() implies sort_key(#[trigger] o[i], by)
            >= sort_key(#[trigger] o[j], by) by {
            if j < k {
                assert(o[i] == r[i] && o[j] == r[j]);
            } else if j == k {
                assert(o[i] == r[i]);
            } else if i == k {
                assert(o[j] == r[j - 1]);
                assert(sort_key(r[k], by) >= sort_key(r[j - 1], by) || j - 1 == k);
            } else if i < k {
                assert(o[i] == r[i] && o[j] == r[j - 1]);
            } else {
                assert(o[i] == r[i - 1] && o[j] == r[j - 1]);
            }
        }
    }
}

/// The order holds the same entries, each as often.
pub proof fn lemma_sort_desc_permutation(s: Seq<LanguageTally>, by: SortBy)
    ensures
        sort_desc(s, by).to_multiset() == s.to_multiset(),
    decreases s.len(),
{
    broadcast use vstd::seq_lib::to_multiset_insert, vstd::seq_lib::to_multiset_build;

    if s.len() > 0 {
        lemma_sort_desc_permutation(s.drop_last(), by);
        let r = sort_desc(s.drop_last(), by);
        lemma_insert_pos_props(r, s.last(), by);
        assert(s.drop_last().push(s.last()) == s);
    }
}

proof fn lemma_tally_distinct(edges: Seq<EdgeView>)
    ensures
        distinct_names(tally(edges)),
    decreases edges.len(),
{
    if edges.len() > 0 {
        lemma_tally_distinct(edges.drop_last());
        let t = tally(edges.drop_last());
        let e = edges.last();
        lemma_position_of_bounds(t, e.name);
        let k = position_of(t, e.name);
        if k == t.len() {
            assert forall|j: int| 0 <= j < t.len() implies t[j].name != e.name by {
                if t[j].name == e.name {
                    lemma_position_of_first(t, e.name, j);
                }
            }
        }
        let o = tally(edges);
        assert forall|i: int, j: int| 0 <= i < j < o.len() implies (#[trigger] o[i]).name != (
        #[trigger] o[j]).name by {
            if j < t.len() {
                assert(o[i].name == t[i].name && o[j].name == t[j].name);
            } else {
                assert(o[i].name == t[i].name);
            }
        }
    }
}

proof fn lemma_position_of_first(t: Seq<LanguageTally>, name: Seq<char>, j: int)
    requires
        0 <= j < t.len(),
        t[j].name == name,
    ensures
        position_of(t, name) <= j,
    decreases t.len(),
{
    if t[0].name != name {
        assert(t.drop_first()[j - 1] == t[j]);
        lemma_position_of_first(t.drop_first(), name, j - 1);
    }
}

proof fn lemma_drop_excluded(t: Seq<LanguageTally>, exclude: Seq<Seq<char>>)
    ensures
        forall|x: LanguageTally|
            #[trigger] drop_excluded(t, exclude).contains(x) ==> t.contains(x) && !is_excluded(
                x.name,
                exclude,
            ),
        distinct_names(t) ==> distinct_names(drop_excluded(t, exclude)),
    decreases t.len(),
{
    if t.len() > 0 {
        lemma_drop_excluded(t.drop_last(), exclude);
        let init = drop_excluded(t.drop_last(), exclude);
        let o = drop_excluded(t, exclude);
        assert forall|x: LanguageTally| #[trigger] o.contains(x) implies t.contains(x)
            && !is_excluded(x.name, exclude) by {
            let k = choose|k: int| 0 <= k < o.len() && o[k] == x;
            if k < init.len() {
                assert(init.contains(x));
                let m = choose|m: int| 0 <= m < t.drop_last().len() && t.drop_last()[m] == x;
                assert(t[m] == x);
            } else {
                assert(t[t.len() - 1] == x);
            }
        }
        if distinct_names(t) {
            assert forall|i: int, j: int| 0 <= i < j < o.len() implies (#[trigger] o[i]).name != (
            #[trigger] o[j]).name by {
                if j < init.len() {
                    assert(o[i] == init[i] && o[j] == init[j]);
                } else {
                    assert(o[i] == init[i]);
                    assert(init.contains(init[i]));
                    let m = choose|m: int|
                        0 <= m < t.drop_last().len() && t.drop_last()[m] == init[i];
                    assert(t[m] == init[i]);
                    assert(t[m].name != t[t.len() - 1].name);
                }
            }
        }
    }
}

proof fn lemma_sort_desc_distinct(s: Seq<LanguageTally>, by: SortBy)
    requires
        distinct_names(s),
    ensures
        distinct_names(sort_desc(s, by)),
    decreases s.len(),
{
    broadcast use vstd::seq_lib::to_multiset_contains;

    if s.len() > 0 {
        let d = s.drop_last();
        assert forall|i: int, j: int| 0 <= i < j < d.len() implies (#[trigger] d[i]).name != (
        #[trigger] d[j]).name by {
            assert(d[i] == s[i] && d[j] == s[j]);
        }
        lemma_sort_desc_distinct(d, by);
        lemma_sort_desc_permutation(d, by);
        let r = sort_desc(d, by);
        let x = s.last();
        lemma_insert_pos_props(r, x, by);
        let k = insert_pos(r, x, by);
        let o = r.insert(k, x);
        assert forall|m: int| 0 <= m < r.len() implies (#[trigger] r[m]).name != x.name by {
            assert(r.contains(r[m]));
            assert(r.to_multiset().count(r[m]) > 0);
            assert(d.contains(r[m]));
            let q = choose|q: int| 0 <= q < d.len() && d[q] == r[m];
            assert(s[q] == r[m]);
        }
        assert forall|i: int, j: int| 0 <= i < j < o.len() implies (#[trigger] o[i]).name != (
        #[trigger] o[j]).name by {
            if j < k {
                assert(o[i] == r[i] && o[j] == r[j]);
            } else if j == k {
                assert(o[i] == r[i]);
            } else if i == k {
                assert(o[j] == r[j - 1]);
            } else if i < k {
                assert(o[i] == r[i] && o[j] == r[j - 1]);
            } else {
                assert(o[i] == r[i - 1] && o[j] == r[j - 1]);
            }
        }
    }
}

/// An empty exclusion list excludes nothing: every language is kept, in its
/// order.
pub proof fn lemma_no_exclusions(t: Seq<LanguageTally>)
    ensures
        drop_excluded(t, Seq::empty()) == t,
    decreases t.len(),
{
    if t.len() > 0 {
        lemma_no_exclusions(t.drop_last());
        assert(!Seq::<Seq<char>>::empty().contains(lowercase(t.last().name)));
        assert(t.drop_last().push(t.last()) == t);
    }
}

proof fn lemma_total_insert(r: Seq<LanguageTally>, k: int, x: LanguageTally)
    requires
        0 <= k <= r.len(),
    ensures
        total_bytes(r.insert(k, x)) == total_bytes(r) + x.bytes,
    decreases r.len(),
{
    if k == r.len() {
        assert(r.insert(k, x) == r.push(x));
        assert(r.push(x).drop_last() == r);
    } else {
        lemma_total_insert(r.drop_last(), k, x);
        assert(r.insert(k, x).drop_last() == r.drop_last().insert(k, x));
        assert(r.insert(k, x).last() == r.last());
    }
}

proof fn lemma_sort_desc_total(s: Seq<LanguageTally>, by: SortBy)
    ensures
        total_bytes(sort_desc(s, by)) == total_bytes(s),
    decreases s.len(),
{
    if s.len() > 0 {
        lemma_sort_desc_total(s.drop_last(), by);
        let r = sort_desc(s.drop_last(), by);
        lemma_insert_pos_props(r, s.last(), by);
        lemma_total_insert(r, insert_pos(r, s.last(), by), s.last());
    }
}

/// What the card lists: at most `limit` languages, each once, none of them
/// excluded, largest first by the chosen key, their bytes together no more
/// than the total their shares are taken of (the shares add up to at most
/// 100%); and every language that was kept but not listed ranks no higher
/// than any listed one.
pub proof fn lemma_ranking_properties(
    gql: GqlResponse,
    username: Seq<char>,
    limit: u8,
    sort_by: SortBy,
    exclude: Seq<Seq<char>>,
)
    ensures
        aggregate_result(gql, username, limit, sort_by, exclude) matches Ok(r) ==> {
            let t = tally(repo_edges(gql.data.unwrap().user.unwrap().repositories.nodes@));
            let kept = drop_excluded(t, exclude);
            &&& r.languages.len() <= limit
            &&& total_bytes(r.languages) <= r.total_bytes
            &&& sorted_desc(r.languages, sort_by)
            &&& distinct_names(r.languages)
            &&& forall|i: int|
                0 <= i < r.languages.len() ==> !is_excluded(
                    (#[trigger] r.languages[i]).name,
                    exclude,
                ) && kept.contains(r.languages[i])
            &&& forall|x: LanguageTally, i: int|
                #![trigger kept.contains(x), r.languages[i]]
                kept.contains(x) && !r.languages.contains(x) && 0 <= i < r.languages.len()
                    ==> sort_key(x, sort_by) <= sort_key(r.languages[i], sort_by)
        },
{
    broadcast use vstd::seq_lib::to_multiset_contains;

    if let Ok(r) = aggregate_result(gql, username, limit, sort_by, exclude) {
        let t = tally(repo_edges(gql.data.unwrap().user.unwrap().repositories.nodes@));
        let kept = drop_excluded(t, exclude);
        let sorted = sort_desc(kept, sort_by);
        lemma_tally_distinct(repo_edges(gql.data.unwrap().user.unwrap().repositories.nodes@));
        lemma_drop_excluded(t, exclude);
        lemma_sort_desc_sorted(kept, sort_by);
        lemma_sort_desc_permutation(kept, sort_by);
        lemma_sort_desc_distinct(kept, sort_by);
        lemma_sort_len(kept, sort_by);
        lemma_sort_desc_total(kept, sort_by);
        let n = r.languages.len();
        lemma_total_prefix(sorted, n as int);
        assert(r.languages == sorted.take(n as int));
        assert forall|i: int, j: int| 0 <= i < j < n implies sort_key(
            #[trigger] r.languages[i],
            sort_by,
        ) >= sort_key(#[trigger] r.languages[j], sort_by) by {
            assert(r.languages[i] == sorted[i] && r.languages[j] == sorted[j]);
        }
        assert forall|i: int, j: int| 0 <= i < j < n implies (#[trigger] r.languages[i]).name != (
        #[trigger] r.languages[j]).name by {
            assert(r.languages[i] == sorted[i] && r.languages[j] == sorted[j]);
        }
        assert forall|i: int| 0 <= i < n implies !is_excluded(
            (#[trigger] r.languages[i]).name,
            exclude,
        ) && kept.contains(r.languages[i]) by {
            assert(r.languages[i] == sorted[i]);
            assert(sorted.contains(sorted[i]));
            assert(sorted.to_multiset().count(sorted[i]) > 0);
            assert(kept.contains(sorted[i]));
        }
        assert forall|x: LanguageTally, i: int|
            #![trigger kept.contains(x), r.languages[i]]
            kept.contains(x) && !r.languages.contains(x) && 0 <= i < n implies sort_key(x, sort_by)
            <= sort_key(r.languages[i], sort_by) by {
            assert(kept.to_multiset().count(x) > 0);
            assert(sorted.contains(x));
            let m = choose|m: int| 0 <= m < sorted.len() && sorted[m] == x;
            if m < n {
                assert(r.languages[m] == x);
            }
            assert(r.languages[i] == sorted[i]);
        }
    }
}


/// A language is dropped exactly when its lowercased name equals an entry of
/// the exclusion list: every other language of the totals stays, and no
/// listed one does.
pub proof fn lemma_exclusion_is_exact_match(t: Seq<LanguageTally>, exclude: Seq<Seq<char>>)
    ensures
        forall|x: LanguageTally|
            #[trigger] drop_excluded(t, exclude).contains(x) <==> (t.contains(x)
                && !exclude.contains(lowercase(x.name))),
    decreases t.len(),
{
    if t.len() > 0 {
        lemma_exclusion_is_exact_match(t.drop_last(), exclude);
        let init = drop_excluded(t.drop_last(), exclude);
        let o = drop_excluded(t, exclude);
        let last = t.last();
        assert forall|x: LanguageTally| #[trigger] o.contains(x) <==> (t.contains(x)
            && !exclude.contains(lowercase(x.name))) by {
            if o.contains(x) {
                let k = choose|k: int| 0 <= k < o.len() && o[k] == x;
                if k < init.len() {
                    assert(init.contains(x));
                    let m = choose|m: int| 0 <= m < t.drop_last().len() && t.drop_last()[m] == x;
                    assert(t[m] == x);
                } else {
                    assert(x == last);
                    assert(t[t.len() - 1] == x);
                }
            }
            if t.contains(x) && !exclude.contains(lowercase(x.name)) {
                let m = choose|m: int| 0 <= m < t.len() && t[m] == x;
                if m < t.len() - 1 {
                    assert(t.drop_last()[m] == x);
                    assert(t.drop_last().contains(x));
                    assert(init.contains(x));
                    let k = choose|k: int| 0 <= k < init.len() && init[k] == x;
                    if is_excluded(last.name, exclude) {
                        assert(o == init);
                    } else {
                        assert(o == init.push(last));
                    }
                    assert(o[k] == x);
                } else {
                    assert(x == last);
                    assert(o == init.push(last));
                    assert(o[o.len() - 1] == x);
                }
            }
        }
    }
}

/// The card leaves out only languages whose lowercased name is on the
/// exclusion list; when it lists fewer than `limit` languages it lists every
/// language whose lowercased name is not on the list.
pub proof fn lemma_aggregate_drops_only_listed(
    gql: GqlResponse,
    username: Seq<char>,
    limit: u8,
    sort_by: SortBy,
    exclude: Seq<Seq<char>>,
)
    ensures
        aggregate_result(gql, username, limit, sort_by, exclude) matches Ok(r) ==> {
            let t = tally(repo_edges(gql.data.unwrap().user.unwrap().repositories.nodes@));
            &&& forall|i: int|
                0 <= i < r.languages.len() ==> !exclude.contains(
                    lowercase((#[trigger] r.languages[i]).name),
                )
            &&& forall|x: LanguageTally|
                #[trigger] t.contains(x) && !exclude.contains(lowercase(x.name))
                    && r.languages.len() < limit ==> r.languages.contains(x)
        },
{
    broadcast use vstd::seq_lib::to_multiset_contains;

    lemma_ranking_properties(gql, username, limit, sort_by, exclude);
    if let Ok(r) = aggregate_result(gql, username, limit, sort_by, exclude) {
        let t = tally(repo_edges(gql.data.unwrap().user.unwrap().repositories.nodes@));
        let kept = drop_excluded(t, exclude);
        let sorted = sort_desc(kept, sort_by);
        lemma_exclusion_is_exact_match(t, exclude);
        lemma_sort_desc_permutation(kept, sort_by);
        lemma_sort_len(kept, sort_by);
        assert forall|i: int| 0 <= i < r.languages.len() implies !exclude.contains(
            lowercase((#[trigger] r.languages[i]).name),
        ) by {
            assert(kept.contains(r.languages[i]));
        }
        assert forall|x: LanguageTally|
            #[trigger] t.contains(x) && !exclude.contains(lowercase(x.name)) && r.languages.len()
                < limit implies r.languages.contains(x) by {
            assert(kept.contains(x));
            assert(kept.to_multiset().count(x) > 0);
            assert(sorted.contains(x));
            assert(r.languages == sorted.take(sorted.len() as int));
            assert(sorted.take(sorted.len() as int) == sorted);
        }
    }
}

} // verus!
