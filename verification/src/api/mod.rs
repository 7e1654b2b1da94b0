//! The REST API's logic: which plugins are listed, how the aggregate
//! `/api/5/all` body is composed, the `/info` schema of a field, and the
//! security rules of the routes (`security`).
use vstd::prelude::*;
use vstd::utf8::encode_utf8;
use crate::config::{Config, Thresholds};
use crate::alerts::lookup;
use crate::plugins::fields::{direction_name, unit_name, info_view, FieldInfo, InfoView};
use crate::plugins::{plugin_name, plugin_named, PluginId};
use crate::alerts::opt_str;

pub mod security;

verus! {

/// Whether plugin `id` is served: it is unless its section disables it.
pub open spec fn registered(c: Config, id: PluginId) -> bool {
    match c.plugin(plugin_name(id)) {
        Some(p) => match p.enabled {
            Some(e) => e,
            None => true,
        },
        None => true,
    }
}

/// The plugins of `PluginId::ALL`, in its order, that are served.
pub open spec fn listed(c: Config, ids: Seq<PluginId>) -> Seq<PluginId>
    decreases ids.len(),
{
    if ids.len() == 0 {
        seq![]
    } else {
        let rest = listed(c, ids.drop_last());
        if registered(c, ids.last()) {
            rest.push(ids.last())
        } else {
            rest
        }
    }
}

/// Every plugin, in alphabetical order of its name.
pub open spec fn all_ids() -> Seq<PluginId> {
    seq![
        PluginId::Cpu,
        PluginId::Diskio,
        PluginId::Fs,
        PluginId::Load,
        PluginId::Mem,
        PluginId::MemSwap,
        PluginId::Network,
        PluginId::System,
        PluginId::Uptime,
    ]
}

pub fn is_registered(config: &Config, id: PluginId) -> (r: bool)
    ensures
        r == registered(*config, id),
{
    config.plugin_enabled(id.as_str())
}

/// The plugin that a route's `{plugin}` segment names, when it is served;
/// `None` answers 404.
pub fn served_plugin(config: &Config, name: &str) -> (r: Option<PluginId>)
    ensures
        r == match plugin_named(name@) {
            Some(id) => if registered(*config, id) {
                Some(id)
            } else {
                None
            },
            None => None,
        },
{
    match PluginId::parse(name) {
        Some(id) => if is_registered(config, id) {
            Some(id)
        } else {
            None
        },
        None => None,
    }
}

/// `/api/5/pluginslist`: the names of the served plugins, sorted.
pub fn plugins_list(config: &Config) -> (r: Vec<&'static str>)
    ensures
        r@.map_values(|s: &'static str| s@) == names_of(listed(*config, all_ids())),
{
    let ghost all = all_ids();
    let mut out: Vec<&'static str> = Vec::new();
    let mut i: usize = 0;
    assert(all.take(0) =~= Seq::<PluginId>::empty());
    while i < 9
        invariant
            0 <= i <= 9,
            all == all_ids(),
            out@.map_values(|s: &'static str| s@) == names_of(listed(*config, all.take(i as int))),
        decreases 9 - i,
    {
        let id = PluginId::ALL[i];
        assert(id == all[i as int]);
        assert(all.take(i + 1).drop_last() =~= all.take(i as int));
        if is_registered(config, id) {
            let ghost o = out@;
            out.push(id.as_str());
            assert(out@.map_values(|s: &'static str| s@) =~= o.map_values(|s: &'static str| s@).push(plugin_name(id)));
        }
        i = i + 1;
    }
    assert(all.take(9) =~= all);
    out
}

pub open spec fn names_of(ids: Seq<PluginId>) -> Seq<Seq<char>> {
    ids.map_values(|id: PluginId| plugin_name(id))
}

proof fn lemma_all_names_sorted()
    ensures
        crate::text::strictly_sorted(names_of(all_ids())),
{
    let n = names_of(all_ids());
    reveal_with_fuel(crate::text::lex_lt, 8);
    assert(crate::text::lex_lt(n[0], n[1]));
    assert(crate::text::lex_lt(n[1], n[2]));
    assert(crate::text::lex_lt(n[2], n[3]));
    assert(crate::text::lex_lt(n[3], n[4]));
    assert(crate::text::lex_lt(n[4], n[5]));
    assert(crate::text::lex_lt(n[5], n[6]));
    assert(crate::text::lex_lt(n[6], n[7]));
    assert(crate::text::lex_lt(n[7], n[8]));
    crate::text::lemma_sorted_from_adjacent(n);
}

proof fn lemma_listed_sorted(c: Config, ids: Seq<PluginId>)
    requires
        crate::text::strictly_sorted(names_of(ids)),
    ensures
        crate::text::strictly_sorted(names_of(listed(c, ids))),
        forall|i: int| 0 <= i < listed(c, ids).len() ==> ids.contains(#[trigger] listed(c, ids)[i]),
    decreases ids.len(),
{
    if ids.len() > 0 {
        let init = ids.drop_last();
        assert forall|i: int, j: int| 0 <= i < j < names_of(init).len() implies crate::text::lex_lt(
            #[trigger] names_of(init)[i],
            #[trigger] names_of(init)[j],
        ) by {
            assert(names_of(init)[i] == names_of(ids)[i] && names_of(init)[j] == names_of(ids)[j]);
        }
        lemma_listed_sorted(c, init);
        let rest = listed(c, init);
        assert forall|i: int| 0 <= i < rest.len() implies ids.contains(#[trigger] rest[i]) by {
            assert(init.contains(rest[i]));
            let k = choose|k: int| 0 <= k < init.len() && init[k] == rest[i];
            assert(ids[k] == rest[i]);
        }
        if registered(c, ids.last()) {
            let l = rest.push(ids.last());
            assert(listed(c, ids) == l);
            assert forall|i: int, j: int| 0 <= i < j < names_of(l).len() implies crate::text::lex_lt(
                #[trigger] names_of(l)[i],
                #[trigger] names_of(l)[j],
            ) by {
                if j < rest.len() {
                    assert(names_of(l)[i] == names_of(rest)[i] && names_of(l)[j] == names_of(rest)[j]);
                } else {
                    assert(init.contains(rest[i]));
                    let k = choose|k: int| 0 <= k < init.len() && init[k] == rest[i];
                    assert(names_of(ids)[k] == names_of(l)[i]);
                    assert(names_of(ids)[ids.len() - 1] == names_of(l)[j]);
                }
            }
            assert forall|i: int| 0 <= i < l.len() implies ids.contains(#[trigger] l[i]) by {
                if i < rest.len() {
                    assert(l[i] == rest[i]);
                } else {
                    assert(ids[ids.len() - 1] == l[i]);
                }
            }
        }
    }
}

/// `/api/5/pluginslist` is sorted: the served plugins come in the order of
/// `PluginId::ALL`, which is alphabetical.
pub proof fn plugins_list_is_sorted(c: Config)
    ensures
        crate::text::strictly_sorted(names_of(listed(c, all_ids()))),
{
    lemma_all_names_sorted();
    lemma_listed_sorted(c, all_ids());
}

/// The body that one plugin answered, the first one for `id` in `parts`.
pub open spec fn body_of(parts: Seq<(PluginId, Seq<u8>)>, id: PluginId) -> Option<Seq<u8>>
    decreases parts.len(),
{
    if parts.len() == 0 {
        None
    } else if parts[0].0 == id {
        Some(parts[0].1)
    } else {
        body_of(parts.drop_first(), id)
    }
}

/// The members `"name":body` of the aggregate object for the plugins of
/// `ids` that answered, in the order of `ids`, separated by commas.
pub open spec fn members(parts: Seq<(PluginId, Seq<u8>)>, ids: Seq<PluginId>) -> Seq<u8>
    decreases ids.len(),
{
    if ids.len() == 0 {
        seq![]
    } else {
        let rest = members(parts, ids.drop_last());
        match body_of(parts, ids.last()) {
            Some(b) => {
                let m = seq![34u8] + encode_utf8(plugin_name(ids.last())) + seq![34u8, 58u8] + b;
                if rest.len() == 0 {
                    m
                } else {
                    rest + seq![44u8] + m
                }
            },
            None => rest,
        }
    }
}

/// The first body for `id` in `parts`.
fn find_body(parts: &Vec<(PluginId, Vec<u8>)>, id: PluginId) -> (r: Option<usize>)
    ensures
        match r {
            Some(i) => i < parts@.len() && body_of(parts_view(parts@), id) == Some(parts@[i as int].1@),
            None => body_of(parts_view(parts@), id) is None,
        },
{
    let ghost pv = parts_view(parts@);
    let mut i: usize = 0;
    assert(pv.skip(0) =~= pv);
    while i < parts.len()
        invariant
            0 <= i <= parts@.len(),
            pv == parts_view(parts@),
            body_of(pv, id) == body_of(pv.skip(i as int), id),
        decreases parts@.len() - i,
    {
        assert(pv.skip(i as int)[0] == (parts@[i as int].0, parts@[i as int].1@));
        if parts[i].0 == id {
            return Some(i);
        }
        assert(pv.skip(i as int).drop_first() =~= pv.skip(i + 1));
        i = i + 1;
    }
    assert(pv.skip(i as int) =~= Seq::<(PluginId, Seq<u8>)>::empty());
    None
}

pub open spec fn parts_view(parts: Seq<(PluginId, Vec<u8>)>) -> Seq<(PluginId, Seq<u8>)> {
    parts.map_values(|p: (PluginId, Vec<u8>)| (p.0, p.1@))
}

fn push_bytes(out: &mut Vec<u8>, b: &[u8])
    ensures
        final(out)@ == old(out)@ + b@,
{
    let mut i: usize = 0;
    while i < b.len()
        invariant
            0 <= i <= b@.len(),
            out@ == old(out)@ + b@.take(i as int),
        decreases b@.len() - i,
    {
        out.push(b[i]);
        assert(b@.take(i + 1) =~= b@.take(i as int).push(b@[i as int]));
        i = i + 1;
    }
    assert(b@.take(b@.len() as int) =~= b@);
}

/// The `/api/5/all` body: one JSON object whose members are the plugins
/// that answered (each body as it is), in alphabetical order of name.
pub fn compose_all(parts: &Vec<(PluginId, Vec<u8>)>) -> (r: Vec<u8>)
    ensures
        r@ == seq![123u8] + members(parts_view(parts@), all_ids()) + seq![125u8],
{
    let ghost all = all_ids();
    let mut out: Vec<u8> = Vec::new();
    out.push(123u8);
    let mut i: usize = 0;
    assert(all.take(0) =~= Seq::<PluginId>::empty());
    while i < 9
        invariant
            0 <= i <= 9,
            all == all_ids(),
            out@ == seq![123u8] + members(parts_view(parts@), all.take(i as int)),
        decreases 9 - i,
    {
        let id = PluginId::ALL[i];
        assert(id == all[i as int]);
        assert(all.take(i + 1).drop_last() =~= all.take(i as int));
        let ghost before = members(parts_view(parts@), all.take(i as int));
        match find_body(parts, id) {
            Some(k) => {
                if out.len() > 1 {
                    out.push(44u8);
                }
                out.push(34u8);
                push_bytes(&mut out, id.as_str().as_bytes());
                out.push(34u8);
                out.push(58u8);
                push_bytes(&mut out, parts[k].1.as_slice());
                let ghost m = seq![34u8] + encode_utf8(plugin_name(id)) + seq![34u8, 58u8] + parts@[k as int].1@;
                assert(out@ =~= seq![123u8] + (if before.len() == 0 {
                    m
                } else {
                    before + seq![44u8] + m
                }));
            },
            None => {},
        }
        i = i + 1;
    }
    assert(all.take(9) =~= all);
    out.push(125u8);
    out
}

/// The configured global limits of a field, when at least one is set.
pub open spec fn configured_limits(c: Config, id: PluginId, field: Seq<char>) -> Option<Thresholds> {
    match c.plugin(plugin_name(id)) {
        Some(p) => match lookup(p.thresholds.view(), field) {
            Some(t) => if t.careful is Some || t.warning is Some || t.critical is Some {
                Some(t)
            } else {
                None
            },
            None => None,
        },
        None => None,
    }
}

pub fn configured_thresholds(config: &Config, id: PluginId, field: &str) -> (r: Option<Thresholds>)
    ensures
        r == configured_limits(*config, id, field@),
{
    let p = match config.plugin_config(id.as_str()) {
        Some(p) => p,
        None => return None,
    };
    let t = match p.thresholds.get(field) {
        Some(t) => *t,
        None => return None,
    };
    if t.careful.is_some() || t.warning.is_some() || t.critical.is_some() {
        Some(t)
    } else {
        None
    }
}

/// What `/info` says of an alertable field beyond the schema.
pub struct WatchInfo {
    pub direction: &'static str,
    pub prominent: bool,
    /// The configured limits, present only when one is set.
    pub default_thresholds: Option<Thresholds>,
}

/// The `/info` entry of one field; an absent option, like a false flag, is
/// left out of the JSON.
pub struct FieldSchema {
    pub description: &'static str,
    pub unit: &'static str,
    pub short_name: Option<&'static str>,
    pub primary_key: bool,
    pub rate: bool,
    pub internal: bool,
    pub watched: Option<WatchInfo>,
    pub normalize_by: Option<&'static str>,
}

/// Whether `s` is the `/info` entry of field `fi` of plugin `id`.
pub open spec fn schema_of(s: FieldSchema, c: Config, id: PluginId, fi: InfoView) -> bool {
    &&& s.description@ == fi.description
    &&& s.unit@ == unit_name(fi.unit)
    &&& opt_str(s.short_name) == fi.short_name
    &&& s.primary_key == fi.primary_key
    &&& s.rate == fi.rate
    &&& s.internal == fi.internal
    &&& opt_str(s.normalize_by) == fi.normalize_by
    &&& if fi.watched {
        s.watched matches Some(w) && w.direction@ == direction_name(fi.direction) && w.prominent == fi.prominent
            && w.default_thresholds == configured_limits(c, id, fi.field)
    } else {
        s.watched is None
    }
}

pub fn field_schema(config: &Config, id: PluginId, fi: &FieldInfo) -> (s: FieldSchema)
    ensures
        schema_of(s, *config, id, info_view(*fi)),
{
    let watched = if fi.watched {
        Some(WatchInfo {
            direction: fi.direction.as_str(),
            prominent: fi.prominent,
            default_thresholds: configured_thresholds(config, id, fi.field),
        })
    } else {
        None
    };
    FieldSchema {
        description: fi.description,
        unit: fi.unit.as_str(),
        short_name: fi.short_name,
        primary_key: fi.primary_key,
        rate: fi.rate,
        internal: fi.internal,
        watched,
        normalize_by: fi.normalize_by,
    }
}

} // verus!
