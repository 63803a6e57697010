//! Sandboxes as clients of the Daytona interface see them.
use crate::error::{outcome, Error, ErrorView, Fault};
use crate::metadata::{
    copy_mounts, copy_text, Metadata, MountConfig, MountView, SandboxMetadata, SandboxView,
};
use crate::number::{format_u64, law_written_is_one_to_one, written};
use crate::order::{codes, comes_first, law_sorting_orders, precedes, sort, sorted, Keyed};
use crate::outside::{hex_digit, json_labels, labels_view, new_id, read_json_labels, uuid_text};
use crate::sandbox::{cores, gibibytes, sandbox_cpu_cores, sandbox_disk_gib, sandbox_memory_gib};
use crate::build::registry::is_member;
use crate::server::exec::blank;
use crate::server::lifecycle::{named_sandbox, sandbox_named};
use crate::table::{law_put_is_found, lookup, put, values, StringMap};
use crate::text::{
    bare, cut_once, glue, glue3, is_white, law_bare_drops_white, law_pieces_are_cut_at,
    lemma_first_of_is, pieces, same, split, split_once, trim, Class,
};
use vstd::prelude::*;

verus! {

/// The address that a client has used for the server.
pub open spec fn base_url(proto: Option<Seq<char>>, host: Option<Seq<char>>) -> Seq<char> {
    let scheme = match proto {
        Some(s) => s,
        None => "http"@,
    };
    let name = match host {
        Some(s) => s,
        None => "localhost:3000"@,
    };
    scheme + "://"@ + name
}

/// The address that a client has used for the server, from the headers `x-forwarded-proto` and
/// `host` as far as they are text.
pub fn request_base_url(proto: &Option<String>, host: &Option<String>) -> (r: String)
    ensures
        r@ == base_url(proto.deep_view(), host.deep_view()),
{
    let scheme = match proto {
        Some(s) => s.clone(),
        None => "http".to_owned(),
    };
    let name = match host {
        Some(s) => s.clone(),
        None => "localhost:3000".to_owned(),
    };
    glue3(scheme.as_str(), "://", name.as_str())
}

/// Tells a sandbox.
pub struct DaytonaSandbox {
    pub id: String,
    pub organization_id: String,
    pub name: String,
    pub snapshot: String,
    pub user: Option<String>,
    pub env: StringMap<String>,
    pub labels: StringMap<String>,
    pub public: bool,
    pub network_block_all: bool,
    pub network_allow_list: Option<String>,
    pub target: Option<String>,
    pub cpu: u64,
    pub gpu: u64,
    pub memory: u64,
    pub disk: u64,
    pub state: String,
    pub auto_stop_interval: Option<u32>,
    pub auto_archive_interval: Option<u32>,
    pub auto_delete_interval: Option<u32>,
    pub volumes: Vec<MountConfig>,
    pub created_at: String,
    pub updated_at: String,
    pub daemon_version: String,
    pub runner_id: String,
    pub toolbox_proxy_url: String,
}

/// The mathematical value of a `DaytonaSandbox`.
#[verifier::ext_equal]
pub struct DaytonaView {
    pub id: Seq<char>,
    pub organization_id: Seq<char>,
    pub name: Seq<char>,
    pub snapshot: Seq<char>,
    pub user: Option<Seq<char>>,
    pub env: Seq<(Seq<char>, Seq<char>)>,
    pub labels: Seq<(Seq<char>, Seq<char>)>,
    pub public: bool,
    pub network_block_all: bool,
    pub network_allow_list: Option<Seq<char>>,
    pub target: Option<Seq<char>>,
    pub cpu: nat,
    pub gpu: nat,
    pub memory: nat,
    pub disk: nat,
    pub state: Seq<char>,
    pub auto_stop_interval: Option<u32>,
    pub auto_archive_interval: Option<u32>,
    pub auto_delete_interval: Option<u32>,
    pub volumes: Seq<MountView>,
    pub created_at: Seq<char>,
    pub updated_at: Seq<char>,
    pub daemon_version: Seq<char>,
    pub runner_id: Seq<char>,
    pub toolbox_proxy_url: Seq<char>,
}

impl DeepView for DaytonaSandbox {
    type V = DaytonaView;

    open spec fn deep_view(&self) -> DaytonaView {
        DaytonaView {
            id: self.id@,
            organization_id: self.organization_id@,
            name: self.name@,
            snapshot: self.snapshot@,
            user: self.user.deep_view(),
            env: self.env.deep_view(),
            labels: self.labels.deep_view(),
            public: self.public,
            network_block_all: self.network_block_all,
            network_allow_list: self.network_allow_list.deep_view(),
            target: self.target.deep_view(),
            cpu: self.cpu as nat,
            gpu: self.gpu as nat,
            memory: self.memory as nat,
            disk: self.disk as nat,
            state: self.state@,
            auto_stop_interval: self.auto_stop_interval,
            auto_archive_interval: self.auto_archive_interval,
            auto_delete_interval: self.auto_delete_interval,
            volumes: self.volumes.deep_view(),
            created_at: self.created_at@,
            updated_at: self.updated_at@,
            daemon_version: self.daemon_version@,
            runner_id: self.runner_id@,
            toolbox_proxy_url: self.toolbox_proxy_url@,
        }
    }
}

/// The name of a sandbox, which is its id where it has no other.
pub open spec fn display_name(s: SandboxView) -> Seq<char> {
    match s.name {
        Some(n) => n,
        None => s.id,
    }
}

/// A sandbox as a client sees it that has reached the server at `base`.
pub open spec fn daytona_of(s: SandboxView, base: Seq<char>) -> DaytonaView {
    DaytonaView {
        id: s.id,
        organization_id: "local"@,
        name: display_name(s),
        snapshot: s.snapshot_id,
        user: s.user,
        env: s.env,
        labels: s.labels,
        public: s.public,
        network_block_all: s.network_block_all,
        network_allow_list: s.network_allow_list,
        target: s.target,
        cpu: cores(s.resources),
        gpu: 0,
        memory: gibibytes(s.resources.memory_bytes, 1),
        disk: gibibytes(s.resources.disk_bytes, 2),
        state: s.state,
        auto_stop_interval: s.auto_stop_interval,
        auto_archive_interval: s.auto_archive_interval,
        auto_delete_interval: s.auto_delete_interval,
        volumes: s.mounts,
        created_at: s.created_at,
        updated_at: match s.updated_at {
            Some(t) => t,
            None => s.created_at,
        },
        daemon_version: "local"@,
        runner_id: "local"@,
        toolbox_proxy_url: base + "/toolbox"@,
    }
}

/// The name of a sandbox.
fn shown_sandbox_name(sandbox: &SandboxMetadata) -> (r: String)
    ensures
        r@ == display_name(sandbox.deep_view()),
{
    match &sandbox.name {
        Some(n) => n.clone(),
        None => sandbox.id.clone(),
    }
}

/// Tells a sandbox to a client that has reached the server at `base`.
pub fn sandbox_to_daytona_value(sandbox: &SandboxMetadata, base: &str) -> (r: DaytonaSandbox)
    ensures
        r.deep_view() == daytona_of(sandbox.deep_view(), base@),
{
    let updated_at = match &sandbox.updated_at {
        Some(t) => t.clone(),
        None => sandbox.created_at.clone(),
    };
    DaytonaSandbox {
        id: sandbox.id.clone(),
        organization_id: "local".to_owned(),
        name: shown_sandbox_name(sandbox),
        snapshot: sandbox.snapshot_id.clone(),
        user: copy_text(&sandbox.user),
        env: sandbox.env.clone(),
        labels: sandbox.labels.clone(),
        public: sandbox.public,
        network_block_all: sandbox.network_block_all,
        network_allow_list: copy_text(&sandbox.network_allow_list),
        target: copy_text(&sandbox.target),
        cpu: sandbox_cpu_cores(&sandbox.resources),
        gpu: 0,
        memory: sandbox_memory_gib(&sandbox.resources),
        disk: sandbox_disk_gib(&sandbox.resources),
        state: sandbox.state.clone(),
        auto_stop_interval: sandbox.auto_stop_interval,
        auto_archive_interval: sandbox.auto_archive_interval,
        auto_delete_interval: sandbox.auto_delete_interval,
        volumes: copy_mounts(&sandbox.mounts),
        created_at: sandbox.created_at.clone(),
        updated_at,
        daemon_version: "local".to_owned(),
        runner_id: "local".to_owned(),
        toolbox_proxy_url: glue(base, "/toolbox"),
    }
}

// Listing

/// The table of the entries, put in one after the other.
pub open spec fn table_of(entries: Seq<(Seq<char>, Seq<char>)>) -> Seq<(Seq<char>, Seq<char>)>
    decreases entries.len(),
{
    if entries.len() == 0 {
        entries
    } else {
        put(table_of(entries.drop_last()), entries.last().0, entries.last().1)
    }
}

/// Puts the entries into a table.
pub fn to_table(entries: &Vec<(String, String)>) -> (r: StringMap<String>)
    ensures
        r.deep_view() == table_of(entries.deep_view()),
{
    let ghost s = entries.deep_view();
    let mut r: StringMap<String> = StringMap::new();
    let mut i: usize = 0;
    proof {
        assert(s.take(0) =~= Seq::<(Seq<char>, Seq<char>)>::empty());
    }
    while i < entries.len()
        invariant
            i <= entries@.len(),
            s == entries.deep_view(),
            r.deep_view() == table_of(s.take(i as int)),
        decreases entries@.len() - i,
    {
        proof {
            assert(s.take(i + 1).drop_last() =~= s.take(i as int));
            assert(s.take(i + 1).last() == (entries@[i as int].0@, entries@[i as int].1@));
        }
        r.insert(entries[i].0.clone(), entries[i].1.clone());
        i = i + 1;
    }
    proof {
        assert(s.take(s.len() as int) =~= s);
    }
    r
}

/// The labels that a sandbox must have, given what the text that names them was read as.
pub fn accept_labels(read: Result<Vec<(String, String)>, String>) -> (r: Result<
    StringMap<String>,
    Error,
>)
    ensures
        outcome(r) == match labels_view(read) {
            Ok(entries) => Ok::<Seq<(Seq<char>, Seq<char>)>, ErrorView>(table_of(entries)),
            Err(text) => Err(ErrorView::Outside(text)),
        },
{
    match read {
        Ok(entries) => Ok(to_table(&entries)),
        Err(text) => Err(Error::Outside(text)),
    }
}

/// The labels that a text asks for: a JSON object of strings, or none where it is blank.
pub open spec fn asked_labels(raw: Option<Seq<char>>) -> Result<
    Seq<(Seq<char>, Seq<char>)>,
    ErrorView,
> {
    match raw {
        Some(text) => if blank(text) {
            Ok(Seq::empty())
        } else {
            match json_labels(text) {
                Ok(entries) => Ok(table_of(entries)),
                Err(e) => Err(ErrorView::Outside(e)),
            }
        },
        None => Ok(Seq::empty()),
    }
}

/// Reads the labels that a sandbox must have.
pub fn parse_label_filter(raw: &Option<String>) -> (r: Result<StringMap<String>, Error>)
    ensures
        outcome(r) == asked_labels(raw.deep_view()),
{
    if let Some(text) = raw {
        if !trim(text.as_str()).as_str().is_empty() {
            return accept_labels(read_json_labels(text.as_str()));
        }
    }
    Ok(StringMap::new())
}

/// The members that are not blank, without the white space around them.
pub open spec fn filled(p: Seq<Seq<char>>) -> Seq<Seq<char>>
    decreases p.len(),
{
    if p.len() == 0 {
        p
    } else {
        let before = filled(p.drop_last());
        if blank(p.last()) {
            before
        } else {
            before.push(bare(p.last()))
        }
    }
}

/// The states between commas.
pub open spec fn asked_states(raw: Option<Seq<char>>) -> Seq<Seq<char>> {
    match raw {
        Some(text) => filled(pieces(text, Class::Only(','))),
        None => Seq::empty(),
    }
}

/// Reads the states that a sandbox may be in.
pub fn parse_states(raw: &Option<String>) -> (r: Vec<String>)
    ensures
        r.deep_view() == asked_states(raw.deep_view()),
{
    let mut r: Vec<String> = Vec::new();
    if let Some(text) = raw {
        let all = split(text.as_str(), Class::Only(','));
        let ghost p = all.deep_view();
        let mut i: usize = 0;
        proof {
            assert(p.take(0) =~= Seq::<Seq<char>>::empty());
            assert(r.deep_view() =~= Seq::<Seq<char>>::empty());
        }
        while i < all.len()
            invariant
                i <= all@.len(),
                p == all.deep_view(),
                r.deep_view() == filled(p.take(i as int)),
            decreases all@.len() - i,
        {
            proof {
                assert(p.take(i + 1).drop_last() =~= p.take(i as int));
                assert(p.take(i + 1).last() == all@[i as int]@);
            }
            let ghost before = r.deep_view();
            let state = trim(all[i].as_str());
            if !state.as_str().is_empty() {
                let ghost sv = state@;
                r.push(state);
                proof {
                    assert(r.deep_view() =~= before.push(sv));
                }
            }
            i = i + 1;
        }
        proof {
            assert(p.take(p.len() as int) =~= p);
        }
    } else {
        proof {
            assert(r.deep_view() =~= Seq::<Seq<char>>::empty());
        }
    }
    r
}

/// Which sandboxes are listed.
pub struct SandboxFilter {
    pub labels: StringMap<String>,
    pub states: Vec<String>,
    pub name: Option<String>,
}

/// The mathematical value of a `SandboxFilter`.
#[verifier::ext_equal]
pub struct FilterView {
    pub labels: Seq<(Seq<char>, Seq<char>)>,
    pub states: Seq<Seq<char>>,
    pub name: Option<Seq<char>>,
}

impl DeepView for SandboxFilter {
    type V = FilterView;

    open spec fn deep_view(&self) -> FilterView {
        FilterView {
            labels: self.labels.deep_view(),
            states: self.states.deep_view(),
            name: self.name.deep_view(),
        }
    }
}

/// Whether a sandbox has all the labels.
pub open spec fn has_labels(s: SandboxView, labels: Seq<(Seq<char>, Seq<char>)>) -> bool {
    forall|i: int|
        0 <= i < labels.len() ==> lookup(s.labels, (#[trigger] labels[i]).0) == Some(labels[i].1)
}

/// Whether a sandbox is listed: it has all the labels, is in one of the states where any are named,
/// and has the name where one is.
pub open spec fn passes(s: SandboxView, f: FilterView) -> bool {
    &&& has_labels(s, f.labels)
    &&& f.states.len() == 0 || f.states.contains(s.state)
    &&& f.name is Some ==> display_name(s) == f.name->0
}

/// Whether a sandbox has all the labels.
fn carries_labels(sandbox: &SandboxMetadata, labels: &StringMap<String>) -> (r: bool)
    ensures
        r == has_labels(sandbox.deep_view(), labels.deep_view()),
{
    let ghost l = labels.deep_view();
    let n: usize = labels.len();
    let mut i: usize = 0;
    while i < n
        invariant
            i <= n,
            n == l.len(),
            l == labels.deep_view(),
            forall|j: int|
                0 <= j < i ==> lookup(sandbox.labels.deep_view(), (#[trigger] l[j]).0) == Some(
                    l[j].1,
                ),
        decreases n - i,
    {
        let found = match sandbox.labels.get(labels.key_at(i).as_str()) {
            Some(v) => same(v.as_str(), labels.value_at(i).as_str()),
            None => false,
        };
        if !found {
            proof {
                assert(lookup(sandbox.labels.deep_view(), l[i as int].0) != Some(l[i as int].1));
            }
            return false;
        }
        i = i + 1;
    }
    true
}

/// Whether a sandbox is listed.
pub fn sandbox_matches_filter(sandbox: &SandboxMetadata, filter: &SandboxFilter) -> (r: bool)
    ensures
        r == passes(sandbox.deep_view(), filter.deep_view()),
{
    if !carries_labels(sandbox, &filter.labels) {
        return false;
    }
    if filter.states.len() > 0 && !is_member(&filter.states, sandbox.state.as_str()) {
        return false;
    }
    if let Some(name) = &filter.name {
        let shown = shown_sandbox_name(sandbox);
        if !same(shown.as_str(), name.as_str()) {
            return false;
        }
    }
    true
}

/// The sandboxes that are listed, in the order of the records.
pub open spec fn listed(s: Seq<SandboxView>, f: FilterView) -> Seq<SandboxView>
    decreases s.len(),
{
    if s.len() == 0 {
        s
    } else {
        let before = listed(s.drop_last(), f);
        if passes(s.last(), f) {
            before.push(s.last())
        } else {
            before
        }
    }
}

/// The sandboxes that are listed.
pub fn filter_sandboxes(metadata: &Metadata, filter: &SandboxFilter) -> (r: Vec<SandboxMetadata>)
    ensures
        r.deep_view() == listed(values(metadata.deep_view().sandboxes), filter.deep_view()),
{
    let ghost t = metadata.sandboxes.deep_view();
    let ghost s = values(t);
    let ghost f = filter.deep_view();
    let n: usize = metadata.sandboxes.len();
    let mut r: Vec<SandboxMetadata> = Vec::new();
    let mut i: usize = 0;
    proof {
        assert(s.take(0) =~= Seq::<SandboxView>::empty());
        assert(r.deep_view() =~= Seq::<SandboxView>::empty());
    }
    while i < n
        invariant
            i <= n,
            n == t.len(),
            t == metadata.sandboxes.deep_view(),
            s == values(t),
            f == filter.deep_view(),
            r.deep_view() == listed(s.take(i as int), f),
        decreases n - i,
    {
        proof {
            assert(s.take(i + 1).drop_last() =~= s.take(i as int));
            assert(s.take(i + 1).last() == t[i as int].1);
        }
        let sandbox = metadata.sandboxes.value_at(i);
        let ghost before = r.deep_view();
        if sandbox_matches_filter(sandbox, filter) {
            r.push(sandbox.clone());
            proof {
                assert(r.deep_view() =~= before.push(t[i as int].1));
            }
        }
        i = i + 1;
    }
    proof {
        assert(s.take(s.len() as int) =~= s);
    }
    r
}

/// The sandboxes as a client sees them.
pub open spec fn all_daytona(s: Seq<SandboxView>, base: Seq<char>) -> Seq<DaytonaView> {
    Seq::new(s.len(), |i: int| daytona_of(s[i], base))
}

/// Tells sandboxes.
pub fn tell_sandboxes(sandboxes: &Vec<SandboxMetadata>, base: &str) -> (r: Vec<DaytonaSandbox>)
    ensures
        r.deep_view() == all_daytona(sandboxes.deep_view(), base@),
{
    let mut r: Vec<DaytonaSandbox> = Vec::new();
    let mut i: usize = 0;
    while i < sandboxes.len()
        invariant
            i <= sandboxes@.len(),
            r@.len() == i,
            forall|j: int|
                0 <= j < i ==> (#[trigger] r@[j]).deep_view() == daytona_of(
                    sandboxes@[j].deep_view(),
                    base@,
                ),
        decreases sandboxes@.len() - i,
    {
        r.push(sandbox_to_daytona_value(&sandboxes[i], base));
        i = i + 1;
    }
    proof {
        assert(r.deep_view() =~= all_daytona(sandboxes.deep_view(), base@));
    }
    r
}

/// Tells the sandboxes that are listed.
pub fn handle_daytona_list_sandboxes(metadata: &Metadata, filter: &SandboxFilter, base: &str) -> (r:
    Vec<DaytonaSandbox>)
    ensures
        r.deep_view() == all_daytona(
            listed(values(metadata.deep_view().sandboxes), filter.deep_view()),
            base@,
        ),
{
    let all = filter_sandboxes(metadata, filter);
    tell_sandboxes(&all, base)
}

/// Listing neither loses a sandbox that passes nor shows one that does not.
pub proof fn law_listing_is_exact(s: Seq<SandboxView>, f: FilterView, x: SandboxView)
    ensures
        listed(s, f).contains(x) <==> s.contains(x) && passes(x, f),
    decreases s.len(),
{
    if s.len() > 0 {
        let t = s.drop_last();
        law_listing_is_exact(t, f, x);
        let before = listed(t, f);
        let l = listed(s, f);
        if l.contains(x) {
            let k = choose|k: int| 0 <= k < l.len() && l[k] == x;
            if k < before.len() {
                assert(before[k] == x);
                let j = choose|j: int| 0 <= j < t.len() && t[j] == x;
                assert(s[j] == x);
            } else {
                assert(s[s.len() - 1] == x);
            }
        }
        if s.contains(x) && passes(x, f) {
            let j = choose|j: int| 0 <= j < s.len() && s[j] == x;
            if j < t.len() {
                assert(t[j] == x);
                let k = choose|k: int| 0 <= k < before.len() && before[k] == x;
                assert(l[k] == x);
            } else {
                assert(l[l.len() - 1] == x);
            }
        }
    }
}

/// A number that was asked for, or else a default, and at least one.
pub open spec fn at_least(asked: Option<usize>, default: usize) -> usize {
    let n = match asked {
        Some(n) => n,
        None => default,
    };
    if n < 1 {
        1
    } else {
        n
    }
}

/// The number that was asked for.
pub fn count_or(asked: Option<usize>, default: usize) -> (r: usize)
    ensures
        r == at_least(asked, default),
        r >= 1,
{
    let n: usize = match asked {
        Some(n) => n,
        None => default,
    };
    if n < 1 {
        1
    } else {
        n
    }
}

/// The members of `s` on a page with so many of them, the first page being number one.
pub open spec fn page_of<A>(s: Seq<A>, page: int, limit: int) -> Seq<A> {
    let start = (page - 1) * limit;
    if start >= s.len() {
        Seq::empty()
    } else if start + limit >= s.len() {
        s.skip(start)
    } else {
        s.subrange(start, start + limit)
    }
}

/// How many pages there are.
pub open spec fn pages_for(total: int, limit: int) -> int {
    (total + limit - 1) / limit
}

/// A page of the listing.
pub struct SandboxPage {
    pub items: Vec<DaytonaSandbox>,
    pub total: usize,
    pub page: usize,
    pub total_pages: usize,
}

/// How many pages there are.
fn count_pages(total: usize, limit: usize) -> (r: usize)
    requires
        limit >= 1,
    ensures
        r == pages_for(total as int, limit as int),
{
    let whole: usize = total / limit;
    let rest: usize = total % limit;
    proof {
        let t = total as int;
        let l = limit as int;
        let w = t / l;
        let m = t % l;
        assert(t == w * l + m && 0 <= m < l && w >= 0) by (nonlinear_arith)
            requires
                l >= 1,
                t >= 0,
                w == t / l,
                m == t % l,
        ;
        if m == 0 {
            assert((t + l - 1) / l == w) by (nonlinear_arith)
                requires
                    t == w * l,
                    l >= 1,
            ;
        } else {
            assert((t + l - 1) / l == w + 1) by (nonlinear_arith)
                requires
                    t == w * l + m,
                    1 <= m < l,
            ;
            assert(w < t) by (nonlinear_arith)
                requires
                    t == w * l + m,
                    1 <= m,
                    l >= 1,
                    w >= 0,
            ;
        }
    }
    if rest == 0 {
        whole
    } else {
        whole + 1
    }
}

/// Tells a page of the sandboxes that are listed, the newest first.
pub fn handle_daytona_list_sandboxes_paginated(
    metadata: &Metadata,
    filter: &SandboxFilter,
    page: Option<usize>,
    limit: Option<usize>,
    base: &str,
) -> (r: SandboxPage)
    requires
        (at_least(page, 1) - 1) * at_least(limit, 20) <= usize::MAX,
    ensures
        ({
            let all = sorted::<SandboxMetadata>(
                listed(values(metadata.deep_view().sandboxes), filter.deep_view()),
                true,
            );
            &&& r.items.deep_view() == all_daytona(
                page_of(all, at_least(page, 1) as int, at_least(limit, 20) as int),
                base@,
            )
            &&& r.total == all.len()
            &&& r.page == at_least(page, 1)
            &&& r.total_pages == pages_for(all.len() as int, at_least(limit, 20) as int)
        }),
{
    let page: usize = count_or(page, 1);
    let limit: usize = count_or(limit, 20);
    let all = sort(filter_sandboxes(metadata, filter), true);
    let ghost s = all.deep_view();
    let total: usize = all.len();
    let total_pages: usize = count_pages(total, limit);
    let start: usize = (page - 1) * limit;
    let mut shown: Vec<SandboxMetadata> = Vec::new();
    let mut i: usize = start;
    proof {
        assert(shown.deep_view() =~= Seq::<SandboxView>::empty());
    }
    let stop: usize = if start >= total {
        start
    } else if total - start <= limit {
        total
    } else {
        start + limit
    };
    while i < stop
        invariant
            start <= i <= stop,
            stop > start ==> stop <= total,
            total == all@.len(),
            s == all.deep_view(),
            shown@.len() == i - start,
            forall|j: int| 0 <= j < i - start ==> (#[trigger] shown@[j]).deep_view() == s[start + j],
        decreases stop - i,
    {
        shown.push(all[i].clone());
        i = i + 1;
    }
    proof {
        assert(shown.deep_view() =~= page_of(s, page as int, limit as int));
    }
    let items = tell_sandboxes(&shown, base);
    SandboxPage { items, total, page, total_pages }
}

/// Every member of a listing stands on exactly one page, at its place there; the pages after the
/// last one are empty, and none has more than its share.
pub proof fn law_pages_cover_all<A>(s: Seq<A>, limit: int, i: int, page: int)
    requires
        limit >= 1,
        0 <= i < s.len(),
        page >= 1,
    ensures
        1 <= i / limit + 1 <= pages_for(s.len() as int, limit),
        i % limit < page_of(s, i / limit + 1, limit).len(),
        page_of(s, i / limit + 1, limit)[i % limit] == s[i],
        page > pages_for(s.len() as int, limit) ==> page_of(s, page, limit).len() == 0,
        page_of(s, page, limit).len() <= limit,
        page < pages_for(s.len() as int, limit) ==> page_of(s, page, limit).len() == limit,
{
    let n = s.len() as int;
    let q = i / limit;
    let m = i % limit;
    let t = pages_for(n, limit);
    assert(i == q * limit + m && 0 <= m < limit && q >= 0) by (nonlinear_arith)
        requires
            limit >= 1,
            i >= 0,
            q == i / limit,
            m == i % limit,
    ;
    let start = (q + 1 - 1) * limit;
    assert(start == q * limit);
    assert(t * limit >= n && (t - 1) * limit < n) by (nonlinear_arith)
        requires
            limit >= 1,
            n >= 1,
            t == (n + limit - 1) / limit,
    ;
    assert(q + 1 <= t) by (nonlinear_arith)
        requires
            q * limit <= i,
            i < n,
            n <= t * limit,
            limit >= 1,
    ;
    let from = (page - 1) * limit;
    assert(from >= 0) by (nonlinear_arith)
        requires
            page >= 1,
            limit >= 1,
            from == (page - 1) * limit,
    ;
    if page > t {
        assert(from >= n) by (nonlinear_arith)
            requires
                page - 1 >= t,
                t * limit >= n,
                limit >= 1,
                from == (page - 1) * limit,
        ;
    }
    if page < t {
        assert(from + limit < n) by (nonlinear_arith)
            requires
                page <= t - 1,
                (t - 1) * limit < n,
                limit >= 1,
                from == (page - 1) * limit,
        ;
    }
}

// Addresses

/// The address of a port of a sandbox, behind the address `base` of the server.
pub open spec fn proxy_url(base: Seq<char>, id: Seq<char>, port: u16) -> Seq<char> {
    base + "/api/sandbox/"@ + id + "/proxy/"@ + written(port as nat, 10)
}

/// The address of a port of a sandbox.
pub fn proxy_address(base: &str, id: &str, port: u16) -> (r: String)
    ensures
        r@ == proxy_url(base@, id@, port),
{
    let start = glue3(base, "/api/sandbox/", id);
    let n = format_u64(port as u64);
    glue3(start.as_str(), "/proxy/", n.as_str())
}

/// The address of the toolbox, for a client that asks for the one of this sandbox.
pub fn handle_daytona_toolbox_proxy_url(metadata: &Metadata, id_or_name: &str, base: &str) -> (r:
    Result<String, Error>)
    ensures
        outcome(r) == match named_sandbox(metadata.deep_view(), id_or_name@) {
            Ok(_) => Ok::<Seq<char>, ErrorView>(base@ + "/toolbox"@),
            Err(e) => Err(e),
        },
{
    match sandbox_named(metadata, id_or_name) {
        Ok(_) => Ok(glue(base, "/toolbox")),
        Err(e) => Err(e),
    }
}

/// A port of a sandbox that can be looked at.
#[derive(Debug)]
pub struct Preview {
    pub sandbox_id: String,
    pub port: u16,
    pub token: String,
    pub url: String,
}

/// The port of a sandbox, with the id of the sandbox as the token.
pub fn handle_daytona_preview_url(metadata: &Metadata, id_or_name: &str, port: u16, base: &str) -> (r:
    Result<Preview, Error>)
    ensures
        match named_sandbox(metadata.deep_view(), id_or_name@) {
            Ok(s) => r matches Ok(p) && p.sandbox_id@ == s.id && p.port == port && p.token@ == s.id
                && p.url@ == proxy_url(base@, s.id, port),
            Err(e) => r matches Err(f) && f.deep_view() == e,
        },
{
    match sandbox_named(metadata, id_or_name) {
        Ok(s) => Ok(
            Preview {
                sandbox_id: s.id.clone(),
                port,
                token: s.id.clone(),
                url: proxy_address(base, s.id.as_str(), port),
            },
        ),
        Err(e) => Err(e),
    }
}

/// The token for a sandbox: its id, a dot, and something that nobody guesses.
pub open spec fn signed_token(id: Seq<char>, unique: Seq<char>) -> Seq<char> {
    id + "."@ + unique
}

/// How long a token is good where a request does not say, in seconds.
pub open spec fn lifetime(asked: Option<u64>) -> u64 {
    match asked {
        Some(n) => n,
        None => 60,
    }
}

/// How long a token is good.
pub fn token_lifetime(asked: Option<u64>) -> (r: u64)
    ensures
        r == lifetime(asked),
{
    match asked {
        Some(n) => n,
        None => 60,
    }
}

/// The port of a sandbox, with a token of its own.
pub fn handle_daytona_signed_preview_url(
    metadata: &Metadata,
    id_or_name: &str,
    port: u16,
    base: &str,
) -> (r: Result<Preview, Error>)
    ensures
        match named_sandbox(metadata.deep_view(), id_or_name@) {
            Ok(s) => r matches Ok(p) && p.sandbox_id@ == s.id && p.port == port && p.url@
                == proxy_url(base@, s.id, port) && exists|unique: Seq<char>|
                uuid_text(unique) && p.token@ == #[trigger] signed_token(s.id, unique),
            Err(e) => r matches Err(f) && f.deep_view() == e,
        },
{
    match sandbox_named(metadata, id_or_name) {
        Ok(s) => {
            let unique = new_id();
            let token = glue3(s.id.as_str(), ".", unique.as_str());
            proof {
                assert(token@ == signed_token(s.id@, unique@));
            }
            Ok(
                Preview {
                    sandbox_id: s.id.clone(),
                    port,
                    token,
                    url: proxy_address(base, s.id.as_str(), port),
                },
            )
        },
        Err(e) => Err(e),
    }
}

/// The sandbox that a token is for: what stands before its first dot, or the whole token.
pub open spec fn token_sandbox(token: Seq<char>) -> Result<Seq<char>, ErrorView> {
    let id = match cut_once(token, Class::Only('.')) {
        Some((id, _)) => id,
        None => token,
    };
    if id.len() == 0 {
        Err(ErrorView::Plain(Fault::InvalidPreviewToken))
    } else {
        Ok(id)
    }
}

/// The sandbox that a token is for.
pub fn handle_daytona_preview_lookup(token: &str) -> (r: Result<String, Error>)
    ensures
        outcome(r) == token_sandbox(token@),
{
    let id = match split_once(token, Class::Only('.')) {
        Some((id, _)) => id,
        None => token.to_owned(),
    };
    if id.as_str().is_empty() {
        Err(Error::Plain(Fault::InvalidPreviewToken))
    } else {
        Ok(id)
    }
}

/// An id of the usual form has no dot, so that what follows applies to it.
pub proof fn law_ids_have_no_dots(id: Seq<char>)
    requires
        uuid_text(id),
    ensures
        id.len() > 0,
        forall|i: int| 0 <= i < id.len() ==> #[trigger] id[i] != '.',
{
    assert forall|i: int| 0 <= i < id.len() implies #[trigger] id[i] != '.' by {
        if i == 8 || i == 13 || i == 18 || i == 23 {
        } else {
            assert(hex_digit(id[i]));
        }
    }
}

/// A token leads back to the sandbox that it was made for, as does the id of the sandbox itself.
/// Ids have no dots.
pub proof fn law_token_leads_back(id: Seq<char>, unique: Seq<char>)
    requires
        id.len() > 0,
        forall|i: int| 0 <= i < id.len() ==> #[trigger] id[i] != '.',
    ensures
        token_sandbox(signed_token(id, unique)) == Ok::<Seq<char>, ErrorView>(id),
        token_sandbox(id) == Ok::<Seq<char>, ErrorView>(id),
{
    let class = Class::Only('.');
    let token = signed_token(id, unique);
    reveal_strlit(".");
    assert forall|i: int| 0 <= i < id.len() implies !class.has(#[trigger] token[i]) by {
        assert(token[i] == id[i]);
    }
    assert(token[id.len() as int] == '.');
    lemma_first_of_is(token, class, id.len() as int);
    assert(token.take(id.len() as int) =~= id);
    lemma_first_of_is(id, class, id.len() as int);
}

/// A sandbox is told as it is on record; it goes by its id where it has no name, and was last changed
/// when it was made where no change is on record.
pub proof fn law_sandbox_is_told_as_it_is(s: SandboxView, base: Seq<char>)
    ensures
        ({
            let r = daytona_of(s, base);
            &&& r.id == s.id
            &&& s.name matches Some(n) ==> r.name == n
            &&& s.name is None ==> r.name == s.id
            &&& r.snapshot == s.snapshot_id
            &&& r.user == s.user
            &&& r.env == s.env
            &&& r.labels == s.labels
            &&& r.public == s.public
            &&& r.network_block_all == s.network_block_all
            &&& r.network_allow_list == s.network_allow_list
            &&& r.target == s.target
            &&& r.state == s.state
            &&& r.auto_stop_interval == s.auto_stop_interval
            &&& r.auto_archive_interval == s.auto_archive_interval
            &&& r.auto_delete_interval == s.auto_delete_interval
            &&& r.volumes == s.mounts
            &&& r.created_at == s.created_at
            &&& s.updated_at matches Some(t) ==> r.updated_at == t
            &&& s.updated_at is None ==> r.updated_at == s.created_at
            &&& r.toolbox_proxy_url == base + "/toolbox"@
            &&& r.gpu == 0
            &&& r.organization_id == "local"@ && r.daemon_version == "local"@ && r.runner_id
                == "local"@
        }),
{
}

/// The sizes of a sandbox are told in whole cores and gibibytes: those that it was made with.
pub proof fn law_told_sizes(s: SandboxView, base: Seq<char>, cpu: u64, memory: u64, disk: u64)
    requires
        cpu >= 1 && memory >= 1 && disk >= 1,
        cpu * 100_000 <= u64::MAX,
        memory * 1_073_741_824 <= u64::MAX,
        disk * 1_073_741_824 <= u64::MAX,
        s.resources.cpu_quota == Some((cpu * 100_000) as u64),
        s.resources.cpu_period == Some(100_000u64),
        s.resources.memory_bytes == Some((memory * 1_073_741_824) as u64),
        s.resources.disk_bytes == Some((disk * 1_073_741_824) as u64),
    ensures
        daytona_of(s, base).cpu == cpu,
        daytona_of(s, base).memory == memory,
        daytona_of(s, base).disk == disk,
{
}

/// A sandbox is listed just where it has every label that is asked for, with its value, is in one of
/// the states that are named, if any are, and goes by the name, if one is.
pub proof fn law_listed_where_all_is_met(s: SandboxView, f: FilterView)
    ensures
        passes(s, f) <==> {
            &&& forall|i: int|
                0 <= i < f.labels.len() ==> lookup(s.labels, (#[trigger] f.labels[i]).0) == Some(
                    f.labels[i].1,
                )
            &&& f.states.len() > 0 ==> exists|i: int|
                0 <= i < f.states.len() && #[trigger] f.states[i] == s.state
            &&& f.name matches Some(n) ==> s.name == Some(n) || (s.name is None && s.id == n)
        },
{
}

/// What is listed keeps its order: the listing of two rows of sandboxes is that of the first and then
/// that of the second, and one sandbox is listed once or not at all.
pub proof fn law_listing_keeps_the_order(
    s: Seq<SandboxView>,
    t: Seq<SandboxView>,
    f: FilterView,
    x: SandboxView,
)
    ensures
        listed(s + t, f) == listed(s, f) + listed(t, f),
        listed(seq![x], f) == if passes(x, f) {
            seq![x]
        } else {
            Seq::empty()
        },
    decreases t.len(),
{
    let none = Seq::<SandboxView>::empty();
    assert(listed(none, f) =~= none);
    assert(seq![x].drop_last() =~= none);
    assert(seq![x].last() == x);
    assert(listed(seq![x], f) =~= if passes(x, f) {
        seq![x]
    } else {
        none
    });
    if t.len() == 0 {
        assert(s + t =~= s);
        assert(listed(s, f) + listed(t, f) =~= listed(s, f));
    } else {
        law_listing_keeps_the_order(s, t.drop_last(), f, x);
        assert((s + t).drop_last() =~= s + t.drop_last());
        assert((s + t).last() == t.last());
        assert(listed(s + t, f) =~= listed(s, f) + listed(t, f));
    }
}

/// A page of the listing starts with the newest sandbox: none that stands behind another was made
/// later.
pub proof fn law_newest_comes_first(s: Seq<SandboxView>, i: int, j: int)
    ensures
        ({
            let all = sorted::<SandboxMetadata>(s, true);
            &&& all.to_multiset() == s.to_multiset()
            &&& 0 <= i < j < all.len() ==> !precedes(codes(all[i].created_at), codes(all[j].created_at))
        }),
{
    law_sorting_orders::<SandboxMetadata>(s, true);
    let all = sorted::<SandboxMetadata>(s, true);
    if 0 <= i < j < all.len() {
        assert(!comes_first(
            SandboxMetadata::key_of(all[j]),
            SandboxMetadata::key_of(all[i]),
            true,
        ));
    }
}

/// Without a number the default counts, and zero counts as one.
pub proof fn law_page_numbers(n: usize, default: usize)
    ensures
        default >= 1 ==> at_least(None, default) == default,
        n >= 1 ==> at_least(Some(n), default) == n,
        at_least(Some(0), default) == 1,
{
}

/// The states are what stands between commas, without the white space around it; what is blank is
/// none.
pub proof fn law_states_stand_between_commas(
    a: Seq<char>,
    state: Seq<char>,
    b: Seq<char>,
    rest: Seq<char>,
)
    requires
        forall|i: int| 0 <= i < a.len() ==> is_white(#[trigger] a[i]) && a[i] != ',',
        forall|i: int| 0 <= i < b.len() ==> is_white(#[trigger] b[i]) && b[i] != ',',
        forall|i: int| 0 <= i < state.len() ==> #[trigger] state[i] != ',',
        state.len() > 0 ==> !is_white(state[0]) && !is_white(state.last()),
    ensures
        ({
            let one = a + state + b;
            let it = if state.len() == 0 {
                Seq::<Seq<char>>::empty()
            } else {
                seq![state]
            };
            &&& asked_states(Some(one)) == it
            &&& asked_states(Some(one + seq![','] + rest)) == it + asked_states(Some(rest))
            &&& asked_states(None).len() == 0
        }),
{
    let comma = Class::Only(',');
    let one = a + state + b;
    assert forall|i: int| 0 <= i < one.len() implies !comma.has(#[trigger] one[i]) by {
        if i < a.len() {
            assert(one[i] == a[i]);
        } else if i < a.len() + state.len() {
            assert(one[i] == state[i - a.len()]);
        } else {
            assert(one[i] == b[i - a.len() - state.len()]);
        }
    }
    law_pieces_are_cut_at(one, ',', rest, comma);
    law_bare_drops_white(a, state, b);
    let none = Seq::<Seq<char>>::empty();
    assert(seq![one].drop_last() =~= none);
    assert(seq![one].last() == one);
    assert(filled(none) =~= none);
    lemma_filled_add(seq![one], pieces(rest, comma));
    if state.len() == 0 {
        assert(filled(seq![one]) =~= none);
    } else {
        assert(filled(seq![one]) =~= seq![state]);
    }
}

/// The members of two lists that are not blank.
proof fn lemma_filled_add(p: Seq<Seq<char>>, q: Seq<Seq<char>>)
    ensures
        filled(p + q) == filled(p) + filled(q),
    decreases q.len(),
{
    if q.len() == 0 {
        assert(p + q =~= p);
        assert(filled(p) + filled(q) =~= filled(p));
    } else {
        lemma_filled_add(p, q.drop_last());
        assert((p + q).drop_last() =~= p + q.drop_last());
        assert((p + q).last() == q.last());
        assert(filled(p + q) =~= filled(p) + filled(q));
    }
}

/// Of labels with the same key the last counts, and no label is lost.
pub proof fn law_last_label_counts(entries: Seq<(Seq<char>, Seq<char>)>, i: int, key: Seq<char>)
    ensures
        0 <= i < entries.len() && (forall|j: int|
            i < j < entries.len() ==> (#[trigger] entries[j]).0 != entries[i].0) ==> lookup(
            table_of(entries),
            entries[i].0,
        ) == Some(entries[i].1),
        (forall|j: int| 0 <= j < entries.len() ==> (#[trigger] entries[j]).0 != key) ==> lookup(
            table_of(entries),
            key,
        ) is None,
    decreases entries.len(),
{
    if entries.len() > 0 {
        let before = entries.drop_last();
        let n = entries.len() - 1;
        let t = table_of(before);
        law_last_label_counts(before, i, key);
        law_put_is_found(t, entries[n].0, entries[n].1, key);
        if 0 <= i < n && (forall|j: int|
            i < j < entries.len() ==> (#[trigger] entries[j]).0 != entries[i].0) {
            assert(before[i] == entries[i]);
            assert forall|j: int| i < j < before.len() implies (#[trigger] before[j]).0
                != before[i].0 by {
                assert(before[j] == entries[j]);
            }
            assert(entries[n].0 != entries[i].0);
            law_put_is_found(t, entries[n].0, entries[n].1, entries[i].0);
        }
        if forall|j: int| 0 <= j < entries.len() ==> (#[trigger] entries[j]).0 != key {
            assert forall|j: int| 0 <= j < before.len() implies (#[trigger] before[j]).0 != key by {
                assert(before[j] == entries[j]);
            }
            assert(entries[n].0 != key);
        }
    }
}

/// The labels that are asked for are those of the JSON text; a blank one asks for none, and one that
/// cannot be read is told.
pub proof fn law_labels_are_asked_for(text: Seq<char>)
    ensures
        asked_labels(None) == Ok::<Seq<(Seq<char>, Seq<char>)>, ErrorView>(Seq::empty()),
        blank(text) ==> asked_labels(Some(text)) == Ok::<Seq<(Seq<char>, Seq<char>)>, ErrorView>(
            Seq::empty(),
        ),
        !blank(text) ==> match json_labels(text) {
            Ok(entries) => asked_labels(Some(text)) == Ok::<
                Seq<(Seq<char>, Seq<char>)>,
                ErrorView,
            >(table_of(entries)),
            Err(e) => asked_labels(Some(text)) == Err::<
                Seq<(Seq<char>, Seq<char>)>,
                ErrorView,
            >(ErrorView::Outside(e)),
        },
{
}

/// The address of the server is the one that the client has used, with the usual ones for what it
/// does not say; and behind it no two ports of a sandbox have the same address.
pub proof fn law_addresses(
    proto: Seq<char>,
    host: Seq<char>,
    base: Seq<char>,
    id: Seq<char>,
    port: u16,
    other: u16,
)
    ensures
        base_url(Some(proto), Some(host)) == proto + "://"@ + host,
        base_url(None, Some(host)) == "http://"@ + host,
        base_url(None, None) == "http://localhost:3000"@,
        proxy_url(base, id, port) == base + "/api/sandbox/"@ + id + "/proxy/"@ + written(
            port as nat,
            10,
        ),
        port != other ==> proxy_url(base, id, port) != proxy_url(base, id, other),
        lifetime(None) == 60,
{
    reveal_strlit("http");
    reveal_strlit("://");
    reveal_strlit("http://");
    reveal_strlit("localhost:3000");
    reveal_strlit("http://localhost:3000");
    assert("http"@ + "://"@ =~= "http://"@);
    assert("http"@ + "://"@ + "localhost:3000"@ =~= "http://localhost:3000"@);
    let front = base + "/api/sandbox/"@ + id + "/proxy/"@;
    let x = proxy_url(base, id, port);
    let y = proxy_url(base, id, other);
    assert(x.skip(front.len() as int) =~= written(port as nat, 10));
    assert(y.skip(front.len() as int) =~= written(other as nat, 10));
    if x == y {
        law_written_is_one_to_one(port as nat, other as nat, 10);
    }
}

/// Every sandbox of a listing is told, each at its place.
pub proof fn law_every_listed_sandbox_is_told(s: Seq<SandboxView>, base: Seq<char>, i: int)
    ensures
        all_daytona(s, base).len() == s.len(),
        0 <= i < s.len() ==> all_daytona(s, base)[i] == daytona_of(s[i], base),
{
}

/// Without members there are no pages, and every page is empty.
pub proof fn law_nothing_has_no_pages<A>(limit: int, page: int)
    requires
        limit >= 1,
        page >= 1,
    ensures
        pages_for(0, limit) == 0,
        page_of(Seq::<A>::empty(), page, limit).len() == 0,
{
    assert((limit - 1) / limit == 0) by (nonlinear_arith)
        requires
            limit >= 1,
    ;
    assert((page - 1) * limit >= 0) by (nonlinear_arith)
        requires
            page >= 1,
            limit >= 1,
    ;
}

} // verus!
