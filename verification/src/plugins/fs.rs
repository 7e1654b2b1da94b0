//! `fs` plugin: one item per mounted filesystem, primary key `mnt_point`.
use vstd::prelude::*;
use crate::config::Config;
use crate::namemap::NameMap;
use crate::num::Num;
use crate::plugins::diskio::{alias_for, alias_of, hide_of, show_of};
use crate::plugins::filter::{all_valid, hide_or_default, passes, patterns_valid, KeyFilter};
use crate::plugins::linux::sat_sub;
use crate::plugins::{percent_tenths, share_tenths};
use crate::text::{lemma_lex_total, lemma_lex_transitive, lex_lt, texts};

verus! {

/// Mount points hidden unless the operator sets a `hide` list.
pub open spec fn default_hide() -> Seq<Seq<char>> {
    seq!["/boot.*"@, ".*/snap.*"@]
}

/// Used space and usage percentage (in tenths) of a filesystem of `size`
/// bytes with `free` bytes available; used space clamps at zero.
pub open spec fn usage_of(size: u64, free: u64) -> (u64, u64) {
    let used = sat_sub(size, free);
    (used, if size == 0 {
        0
    } else {
        percent_tenths(used as int, size as int) as u64
    })
}

pub fn usage(size: u64, free: u64) -> (r: (u64, u64))
    ensures
        r == usage_of(size, free),
{
    let used = size.saturating_sub(free);
    let percent = if size == 0 {
        0
    } else {
        share_tenths(used as u128, size as u128)
    };
    (used, percent)
}

/// One mounted filesystem as the system reports it.
pub struct DiskInfo {
    pub device_name: String,
    pub fs_type: String,
    pub mnt_point: String,
    pub total_space: u64,
    pub available_space: u64,
}

/// One filesystem of the payload; `percent` is in tenths.
pub struct FsItem {
    pub device_name: String,
    pub fs_type: String,
    pub mnt_point: String,
    pub size: u64,
    pub used: u64,
    pub free: u64,
    pub percent: u64,
    /// The operator's alias; absent from the payload when unset.
    pub alias: Option<String>,
}

/// Whether `it` is the item of filesystem `d`.
pub open spec fn fs_item(it: FsItem, d: DiskInfo, alias: Map<Seq<char>, String>) -> bool {
    &&& it.device_name@ == d.device_name@
    &&& it.fs_type@ == d.fs_type@
    &&& it.mnt_point@ == d.mnt_point@
    &&& it.size == d.total_space
    &&& (it.used, it.percent) == usage_of(d.total_space, d.available_space)
    &&& it.free == d.available_space
    &&& match it.alias {
        Some(a) => alias_for(alias, d.mnt_point@) == Some(a@),
        None => alias_for(alias, d.mnt_point@) is None,
    }
}

/// Disk `a` comes before disk `b`: by mount point, and in the order the
/// system listed them for equal mount points.
pub open spec fn before(disks: Seq<DiskInfo>, a: int, b: int) -> bool {
    lex_lt(disks[a].mnt_point@, disks[b].mnt_point@) || (disks[a].mnt_point@ == disks[b].mnt_point@ && a < b)
}

proof fn lemma_before_transitive(disks: Seq<DiskInfo>, a: int, b: int, c: int)
    requires
        before(disks, a, b),
        before(disks, b, c),
    ensures
        before(disks, a, c),
{
    let (x, y, z) = (disks[a].mnt_point@, disks[b].mnt_point@, disks[c].mnt_point@);
    if lex_lt(x, y) && lex_lt(y, z) {
        lemma_lex_transitive(x, y, z);
    }
}

/// Whether `order` lists, in `before` order, exactly the disks whose mount
/// point passes the filter.
pub open spec fn is_fs_order(order: Seq<int>, disks: Seq<DiskInfo>, show: Seq<Seq<char>>, hide: Seq<Seq<char>>) -> bool {
    &&& forall|j: int| 0 <= j < order.len() ==> 0 <= #[trigger] order[j] < disks.len() && passes(show, hide, disks[order[j]].mnt_point@)
    &&& forall|i: int| 0 <= i < disks.len() && passes(show, hide, disks[i].mnt_point@) ==> #[trigger] order.contains(i)
    &&& forall|a: int, b: int| 0 <= a < b < order.len() ==> before(disks, #[trigger] order[a], #[trigger] order[b])
}

/// The `fs` plugin: collection period, mount-point filter and aliases.
pub struct FsPlugin {
    pub refresh: Num,
    pub filter: KeyFilter,
    /// Mount point to operator-defined alias.
    pub alias: NameMap<String>,
}

/// The `hide` list in effect: the operator's, or the defaults when they set
/// none.
pub open spec fn effective_hide(c: Config) -> Seq<Seq<char>> {
    if hide_of(c, "fs"@).len() == 0 {
        default_hide()
    } else {
        hide_of(c, "fs"@)
    }
}

fn copy_strings(v: &Vec<String>) -> (r: Vec<String>)
    ensures
        texts(r@) == texts(v@),
{
    let mut r: Vec<String> = Vec::new();
    let mut i: usize = 0;
    while i < v.len()
        invariant
            0 <= i <= v@.len(),
            texts(r@) == texts(v@).take(i as int),
        decreases v@.len() - i,
    {
        let ghost r0 = r@;
        r.push(v[i].clone());
        assert(texts(r@) =~= texts(r0).push(v@[i as int]@));
        assert(texts(v@).take(i + 1) =~= texts(v@).take(i as int).push(v@[i as int]@));
        i = i + 1;
    }
    assert(texts(v@).take(v@.len() as int) =~= texts(v@));
    r
}

impl FsPlugin {
    /// The effective `show` and `hide` lists of `config`.
    fn lists(config: &Config) -> (r: (Vec<String>, Vec<String>))
        ensures
            texts(r.0@) == show_of(*config, "fs"@),
            texts(r.1@) == effective_hide(*config),
    {
        let (show, hide) = match config.plugin_config("fs") {
            Some(pc) => (copy_strings(&pc.show), copy_strings(&pc.hide)),
            None => (Vec::new(), Vec::new()),
        };
        proof {
            if config.plugin("fs"@) is None {
                assert(texts(show@) =~= Seq::<Seq<char>>::empty());
                assert(texts(hide@) =~= Seq::<Seq<char>>::empty());
            }
        }
        let mut defaults: Vec<&str> = Vec::new();
        defaults.push("/boot.*");
        defaults.push(".*/snap.*");
        let hide = hide_or_default(hide, defaults.as_slice());
        assert(defaults@.map_values(|d: &str| d@) =~= default_hide());
        (show, hide)
    }

    /// The plugin as `config` sets it up; its `show` and effective `hide`
    /// patterns must compile.
    pub fn new(config: &Config) -> (p: Self)
        requires
            all_valid(show_of(*config, "fs"@)),
            all_valid(effective_hide(*config)),
        ensures
            p.refresh == config.refresh_seconds("fs"@),
            p.filter.show_patterns() == show_of(*config, "fs"@),
            p.filter.hide_patterns() == effective_hide(*config),
            p.alias.view() == alias_of(*config, "fs"@),
    {
        let (show, hide) = FsPlugin::lists(config);
        let alias = match config.plugin_config("fs") {
            Some(pc) => pc.alias.copied(),
            None => NameMap::new(),
        };
        FsPlugin { refresh: config.refresh_for("fs"), filter: KeyFilter::new(show.as_slice(), hide.as_slice()), alias }
    }

    /// The plugin as `config` sets it up, or `None` when one of its `show`
    /// or effective `hide` patterns does not compile.
    pub fn checked(config: &Config) -> (r: Option<Self>)
        ensures
            r is Some <==> all_valid(show_of(*config, "fs"@)) && all_valid(effective_hide(*config)),
            r matches Some(p) ==> p.refresh == config.refresh_seconds("fs"@)
                && p.filter.show_patterns() == show_of(*config, "fs"@)
                && p.filter.hide_patterns() == effective_hide(*config)
                && p.alias.view() == alias_of(*config, "fs"@),
    {
        let (show, hide) = FsPlugin::lists(config);
        if patterns_valid(show.as_slice()) && patterns_valid(hide.as_slice()) {
            Some(FsPlugin::new(config))
        } else {
            None
        }
    }

    /// The positions of the shown filesystems, sorted by mount point (ties
    /// in listing order).
    fn order(&self, disks: &Vec<DiskInfo>) -> (r: Vec<usize>)
        ensures
            is_fs_order(r@.map_values(|i: usize| i as int), disks@, self.filter.show_patterns(), self.filter.hide_patterns()),
    {
        let ghost show = self.filter.show_patterns();
        let ghost hide = self.filter.hide_patterns();
        let mut order: Vec<usize> = Vec::new();
        let mut i: usize = 0;
        while i < disks.len()
            invariant
                0 <= i <= disks@.len(),
                show == self.filter.show_patterns(),
                hide == self.filter.hide_patterns(),
                forall|j: int| 0 <= j < order@.len() ==> #[trigger] order@[j] < i && passes(show, hide, disks@[order@[j] as int].mnt_point@),
                forall|k: int| 0 <= k < i && passes(show, hide, disks@[k].mnt_point@) ==> exists|j: int| 0 <= j < order@.len() && #[trigger] order@[j] == k,
                forall|a: int, b: int| 0 <= a < b < order@.len() ==> before(disks@, #[trigger] order@[a] as int, #[trigger] order@[b] as int),
            decreases disks@.len() - i,
        {
            if self.filter.shown(disks[i].mnt_point.as_str()) {
                let ghost o = order@;
                let ghost key = disks@[i as int].mnt_point@;
                let mut p: usize = 0;
                while p < order.len() && !crate::text::str_lt(disks[i].mnt_point.as_str(), disks[order[p]].mnt_point.as_str())
                    invariant
                        0 <= p <= o.len(),
                        order@ == o,
                        i < disks@.len(),
                        key == disks@[i as int].mnt_point@,
                        forall|j: int| 0 <= j < o.len() ==> #[trigger] o[j] < i,
                        forall|q: int| 0 <= q < p ==> !lex_lt(key, disks@[#[trigger] o[q] as int].mnt_point@),
                    decreases o.len() - p,
                {
                    p = p + 1;
                }
                order.insert(p, i);
                proof {
                    let n = order@;
                    assert(n =~= o.insert(p as int, i));
                    assert forall|q: int| 0 <= q < p implies before(disks@, o[q] as int, i as int) by {
                        let kq = disks@[o[q] as int].mnt_point@;
                        assert(!lex_lt(key, kq));
                        if kq != key {
                            lemma_lex_total(kq, key);
                        }
                    }
                    if p < o.len() {
                        assert(lex_lt(key, disks@[o[p as int] as int].mnt_point@));
                        assert(before(disks@, i as int, o[p as int] as int));
                    }
                    assert forall|a: int, b: int| 0 <= a < b < n.len() implies before(disks@, #[trigger] n[a] as int, #[trigger] n[b] as int) by {
                        if b < p {
                            assert(n[a] == o[a] && n[b] == o[b]);
                        } else if b == p {
                            assert(n[a] == o[a]);
                        } else if a == p {
                            assert(n[b] == o[b - 1]);
                            if b - 1 > p {
                                assert(before(disks@, o[p as int] as int, o[b - 1] as int));
                                lemma_before_transitive(disks@, i as int, o[p as int] as int, o[b - 1] as int);
                            }
                        } else if a < p {
                            assert(n[a] == o[a] && n[b] == o[b - 1]);
                        } else {
                            assert(n[a] == o[a - 1] && n[b] == o[b - 1]);
                        }
                    }
                    assert forall|k: int| 0 <= k < i + 1 && passes(show, hide, disks@[k].mnt_point@) implies exists|j: int| 0 <= j < n.len() && #[trigger] n[j] == k by {
                        if k == i {
                            assert(n[p as int] == k);
                        } else {
                            let j = choose|j: int| 0 <= j < o.len() && #[trigger] o[j] == k;
                            if j < p {
                                assert(n[j] == k);
                            } else {
                                assert(n[j + 1] == k);
                            }
                        }
                    }
                    assert forall|j: int| 0 <= j < n.len() implies #[trigger] n[j] < i + 1 && passes(show, hide, disks@[n[j] as int].mnt_point@) by {
                        if j < p {
                            assert(n[j] == o[j]);
                        } else if j > p {
                            assert(n[j] == o[j - 1]);
                        }
                    }
                }
            }
            i = i + 1;
        }
        proof {
            let m = order@.map_values(|i: usize| i as int);
            assert forall|k: int| 0 <= k < disks@.len() && passes(show, hide, disks@[k].mnt_point@) implies #[trigger] m.contains(k) by {
                let j = choose|j: int| 0 <= j < order@.len() && #[trigger] order@[j] == k;
                assert(m[j] == k);
            }
            assert forall|a: int, b: int| 0 <= a < b < m.len() implies before(disks@, #[trigger] m[a], #[trigger] m[b]) by {
                assert(before(disks@, order@[a] as int, order@[b] as int));
            }
        }
        order
    }

    /// The payload items: the filesystems whose mount point the filter
    /// shows, sorted by mount point (ties keep the system's order), each
    /// with its usage and alias.
    pub fn items(&self, disks: &Vec<DiskInfo>) -> (r: Vec<FsItem>)
        ensures
            exists|order: Seq<int>|
                is_fs_order(order, disks@, self.filter.show_patterns(), self.filter.hide_patterns())
                    && r@.len() == order.len()
                    && forall|j: int| 0 <= j < order.len() ==> fs_item(#[trigger] r@[j], disks@[order[j]], self.alias.view()),
    {
        let order = self.order(disks);
        let ghost m = order@.map_values(|i: usize| i as int);
        let mut r: Vec<FsItem> = Vec::new();
        let mut j: usize = 0;
        while j < order.len()
            invariant
                0 <= j <= order@.len(),
                m == order@.map_values(|i: usize| i as int),
                is_fs_order(m, disks@, self.filter.show_patterns(), self.filter.hide_patterns()),
                r@.len() == j,
                forall|q: int| 0 <= q < j ==> fs_item(#[trigger] r@[q], disks@[m[q]], self.alias.view()),
            decreases order@.len() - j,
        {
            assert(m[j as int] == order@[j as int] as int);
            assert(0 <= m[j as int] < disks@.len());
            let d = &disks[order[j]];
            let (used, percent) = usage(d.total_space, d.available_space);
            let alias = match self.alias.get(d.mnt_point.as_str()) {
                Some(a) => Some(a.clone()),
                None => None,
            };
            r.push(FsItem {
                device_name: d.device_name.clone(),
                fs_type: d.fs_type.clone(),
                mnt_point: d.mnt_point.clone(),
                size: d.total_space,
                used,
                free: d.available_space,
                percent,
                alias,
            });
            j = j + 1;
        }
        r
    }
}

} // verus!
