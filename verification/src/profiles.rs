//! Model-profile configuration management: merging a wire config with
//! tri-state secrets into the live one, the default-set marker, set
//! removal, and which agents a profile apply reaches.
use vstd::prelude::*;
use vstd::string::StringExecFns;
use crate::auth::ApiError;
use crate::order::{lex_lt, sorted_strict, sorted_position, lemma_insert_sorted};
use crate::team::{opt_view, copy_opt_string};
use crate::text::{chars_of, mask_key, masked};
use crate::registry::{AgentRegistry, RegistryEntry, with_config};
use crate::team::converge::join_with_commas;
use crate::team::converge::join_names;

verus! {

/// What a model accepts as input.
#[derive(Clone, Copy, Debug, PartialEq, Eq, Structural)]
pub enum Modality {
    Text,
    Image,
    Audio,
    Video,
}

/// Requested reasoning depth, passed through to the model.
#[derive(Clone, Copy, Debug, PartialEq, Eq, Structural)]
pub enum ReasoningEffort {
    Minimal,
    Low,
    Medium,
    High,
    Xhigh,
}

/// One model profile.
#[derive(Clone, Debug)]
pub struct Profile {
    pub id: String,
    pub endpoint: String,
    pub model: String,
    pub max_context_window: usize,
    pub store: Option<bool>,
    pub effort: Option<ReasoningEffort>,
    pub modalities: Vec<Modality>,
}

/// The value of a [`Profile`].
pub ghost struct ProfileV {
    pub id: Seq<char>,
    pub endpoint: Seq<char>,
    pub model: Seq<char>,
    pub max_context_window: usize,
    pub store: Option<bool>,
    pub effort: Option<ReasoningEffort>,
    pub modalities: Seq<Modality>,
}

impl View for Profile {
    type V = ProfileV;

    open spec fn view(&self) -> ProfileV {
        ProfileV {
            id: self.id@,
            endpoint: self.endpoint@,
            model: self.model@,
            max_context_window: self.max_context_window,
            store: self.store,
            effort: self.effort,
            modalities: self.modalities@,
        }
    }
}

fn copy_modalities(v: &Vec<Modality>) -> (r: Vec<Modality>)
    ensures r@ == v@,
{
    let mut out: Vec<Modality> = Vec::new();
    let mut i: usize = 0;
    while i < v.len()
        invariant
            i <= v.len(),
            out@ == v@.take(i as int),
        decreases v.len() - i,
    {
        out.push(v[i]);
        proof { assert(out@ =~= v@.take(i + 1)); }
        i = i + 1;
    }
    proof { assert(v@.take(i as int) =~= v@); }
    out
}

impl Profile {
    pub fn copy(&self) -> (r: Profile)
        ensures r@ == self@,
    {
        Profile {
            id: self.id.clone(),
            endpoint: self.endpoint.clone(),
            model: self.model.clone(),
            max_context_window: self.max_context_window,
            store: self.store,
            effort: self.effort,
            modalities: copy_modalities(&self.modalities),
        }
    }
}

/// The values of a list of profiles.
pub open spec fn profiles_view(s: Seq<Profile>) -> Seq<ProfileV> {
    s.map_values(|p: Profile| p@)
}

pub fn copy_profiles(v: &Vec<Profile>) -> (r: Vec<Profile>)
    ensures profiles_view(r@) == profiles_view(v@),
{
    let mut out: Vec<Profile> = Vec::new();
    let mut i: usize = 0;
    while i < v.len()
        invariant
            i <= v.len(),
            profiles_view(out@) == profiles_view(v@).take(i as int),
        decreases v.len() - i,
    {
        let ghost pre = profiles_view(out@);
        out.push(v[i].copy());
        proof {
            assert(profiles_view(out@) =~= pre.push(v@[i as int]@));
            assert(profiles_view(v@).take(i + 1) =~= profiles_view(v@).take(i as int).push(v@[i as int]@));
        }
        i = i + 1;
    }
    proof { assert(profiles_view(v@).take(i as int) =~= profiles_view(v@)); }
    out
}

/// A named set of profiles (the failover rotation).
#[derive(Clone, Debug)]
pub struct ProfileSet {
    pub name: String,
    pub description: Option<String>,
    pub profiles: Vec<Profile>,
}

/// The value of a [`ProfileSet`].
pub ghost struct SetV {
    pub name: Seq<char>,
    pub description: Option<Seq<char>>,
    pub profiles: Seq<ProfileV>,
}

impl View for ProfileSet {
    type V = SetV;

    open spec fn view(&self) -> SetV {
        SetV { name: self.name@, description: opt_view(self.description), profiles: profiles_view(self.profiles@) }
    }
}

/// A model endpoint and its credentials.
#[derive(Clone, Debug)]
pub struct Provider {
    pub id: String,
    pub family: String,
    pub api_key: String,
    /// `None`: the family's default URL.
    pub base_url: Option<String>,
}

/// The value of a [`Provider`].
pub ghost struct ProviderV {
    pub id: Seq<char>,
    pub family: Seq<char>,
    pub api_key: Seq<char>,
    pub base_url: Option<Seq<char>>,
}

impl View for Provider {
    type V = ProviderV;

    open spec fn view(&self) -> ProviderV {
        ProviderV { id: self.id@, family: self.family@, api_key: self.api_key@, base_url: opt_view(self.base_url) }
    }
}

/// The whole profile configuration: sets kept sorted by name (one per
/// name), the default-set marker, the parking space (profiles out of
/// rotation), and the endpoints keyed by id.
#[derive(Clone, Debug)]
pub struct ProfileConfig {
    pub sets: Vec<ProfileSet>,
    pub default: String,
    pub parking: Vec<Profile>,
    pub endpoints: Vec<(String, Provider)>,
}

/// The value of a list of sets.
pub open spec fn sets_view(s: Seq<ProfileSet>) -> Seq<SetV> {
    s.map_values(|x: ProfileSet| x@)
}

/// The names of a list of sets.
pub open spec fn set_names(s: Seq<SetV>) -> Seq<Seq<char>> {
    s.map_values(|x: SetV| x.name)
}

/// The value of an endpoint table.
pub open spec fn endpoints_view(s: Seq<(String, Provider)>) -> Seq<(Seq<char>, ProviderV)> {
    s.map_values(|e: (String, Provider)| (e.0@, e.1@))
}

/// A set name is non-empty and made of ASCII letters, digits, `_`, `-`.
pub open spec fn valid_set_name(s: Seq<char>) -> bool {
    &&& s.len() > 0
    &&& forall|i: int| 0 <= i < s.len() ==> {
        let c = #[trigger] s[i];
        ('a' <= c && c <= 'z') || ('A' <= c && c <= 'Z') || ('0' <= c && c <= '9') || c == '_' || c == '-'
    }
}

/// Whether `s` matches `^[A-Za-z0-9_-]+$`.
pub fn is_valid_set_name(s: &str) -> (b: bool)
    ensures b == valid_set_name(s@),
{
    let cs = chars_of(s);
    if cs.len() == 0 {
        return false;
    }
    let mut i: usize = 0;
    while i < cs.len()
        invariant
            cs@ == s@,
            i <= cs.len(),
            forall|j: int| 0 <= j < i ==> {
                let c = #[trigger] s@[j];
                ('a' <= c && c <= 'z') || ('A' <= c && c <= 'Z') || ('0' <= c && c <= '9') || c == '_' || c == '-'
            },
        decreases cs.len() - i,
    {
        let c = cs[i];
        if !(('a' <= c && c <= 'z') || ('A' <= c && c <= 'Z') || ('0' <= c && c <= '9') || c == '_' || c == '-') {
            return false;
        }
        i = i + 1;
    }
    true
}

pub open spec fn msg_default_missing(name: Seq<char>) -> Seq<char> {
    "default set name '"@ + name + "' does not match any set"@
}

pub open spec fn msg_default_ambiguous() -> Seq<char> {
    "no default set named and several sets to choose from; name one as the default"@
}

/// The default-set marker a config resolves to: a named default must be
/// one of the sets; an unnamed one resolves to the only set (or to no
/// default when there are no sets) and is refused among several.
pub open spec fn default_spec(names: Seq<Seq<char>>, name: Seq<char>) -> Result<Seq<char>, Seq<char>> {
    if name.len() > 0 {
        if names.contains(name) { Ok(name) } else { Err(msg_default_missing(name)) }
    } else if names.len() == 0 {
        Ok(Seq::empty())
    } else if names.len() == 1 {
        Ok(names[0])
    } else {
        Err(msg_default_ambiguous())
    }
}

/// Resolve the default-set marker against the sets (see
/// [`default_spec`]).
pub fn normalize_default(sets: &Vec<ProfileSet>, name: &String) -> (r: Result<String, String>)
    ensures
        match default_spec(set_names(sets_view(sets@)), name@) {
            Ok(d) => r matches Ok(x) && x@ == d,
            Err(m) => r matches Err(x) && x@ == m,
        },
{
    let ghost names = set_names(sets_view(sets@));
    if name.as_str().unicode_len() > 0 {
        let mut i: usize = 0;
        while i < sets.len()
            invariant
                i <= sets.len(),
                names == set_names(sets_view(sets@)),
                name@.len() > 0,
                forall|k: int| 0 <= k < i ==> #[trigger] names[k] != name@,
            decreases sets.len() - i,
        {
            proof { assert(names[i as int] == sets@[i as int].name@); }
            if sets[i].name == *name {
                proof { assert(names.contains(name@)); }
                return Ok(name.clone());
            }
            i = i + 1;
        }
        return Err(String::from_str("default set name '").concat(name.as_str()).concat("' does not match any set"));
    }
    if sets.len() == 0 {
        Ok(String::new())
    } else if sets.len() == 1 {
        proof { assert(names[0] == sets@[0].name@); }
        Ok(sets[0].name.clone())
    } else {
        Err(String::from_str("no default set named and several sets to choose from; name one as the default"))
    }
}

// ---- the wire config and its merge ----

/// A wire endpoint: `api_key` and `base_url` are tri-state (see
/// [`merge_wire`]).
#[derive(Clone, Debug)]
pub struct ProviderPatch {
    pub id: String,
    pub family: String,
    pub api_key: Option<String>,
    pub base_url: Option<String>,
}

pub ghost struct PatchV {
    pub id: Seq<char>,
    pub family: Seq<char>,
    pub api_key: Option<Seq<char>>,
    pub base_url: Option<Seq<char>>,
}

impl View for ProviderPatch {
    type V = PatchV;

    open spec fn view(&self) -> PatchV {
        PatchV { id: self.id@, family: self.family@, api_key: opt_view(self.api_key), base_url: opt_view(self.base_url) }
    }
}

/// A wire set.
#[derive(Clone, Debug)]
pub struct SetWire {
    pub name: String,
    pub description: Option<String>,
    pub profiles: Vec<Profile>,
}

impl View for SetWire {
    type V = SetV;

    open spec fn view(&self) -> SetV {
        SetV { name: self.name@, description: opt_view(self.description), profiles: profiles_view(self.profiles@) }
    }
}

/// The body of a profile-config update.
#[derive(Clone, Debug)]
pub struct ProfileConfigWire {
    pub sets: Vec<SetWire>,
    /// Absent: the sets resolve the default; present: must name a set.
    pub default: Option<String>,
    pub endpoints: Vec<(String, ProviderPatch)>,
    /// Absent: keep the live parking; present: replace it.
    pub parking: Option<Vec<Profile>>,
    /// Accept stranding agents bound to dropped sets.
    pub force: bool,
}

/// The first endpoint keyed `key`.
pub open spec fn endpoint_of(eps: Seq<(Seq<char>, ProviderV)>, key: Seq<char>) -> Option<ProviderV>
    decreases eps.len(),
{
    if eps.len() == 0 {
        None
    } else {
        match endpoint_of(eps.drop_last(), key) {
            Some(e) => Some(e),
            None => if eps.last().0 == key { Some(eps.last().1) } else { None },
        }
    }
}

pub open spec fn msg_key_mismatch(key: Seq<char>, id: Seq<char>) -> Seq<char> {
    "provider map key '"@ + key + "' does not match id '"@ + id + "'"@
}

pub open spec fn msg_new_without_key(key: Seq<char>) -> Seq<char> {
    "provider '"@ + key + "' is new; api_key is required"@
}

pub open spec fn msg_empty_key(key: Seq<char>) -> Seq<char> {
    "provider '"@ + key + "': api_key must not be empty"@
}

/// One wire endpoint resolved against the live endpoints: the map key
/// must be the id; a null key keeps the live key (refused for a new
/// endpoint), an empty one is refused, the masked echo of the live key
/// keeps it, any other string replaces it; a null URL keeps the live
/// one, an empty one resets to the family default, any other replaces.
pub open spec fn endpoint_step(live: Seq<(Seq<char>, ProviderV)>, key: Seq<char>, p: PatchV) -> Result<ProviderV, Seq<char>> {
    if key != p.id {
        Err(msg_key_mismatch(key, p.id))
    } else {
        let old = endpoint_of(live, key);
        let key_r: Result<Seq<char>, Seq<char>> = match p.api_key {
            None => match old {
                Some(e) => Ok(e.api_key),
                None => Err(msg_new_without_key(key)),
            },
            Some(k) => if k.len() == 0 {
                Err(msg_empty_key(key))
            } else {
                match old {
                    Some(e) => if masked(e.api_key) == k { Ok(e.api_key) } else { Ok(k) },
                    None => Ok(k),
                }
            },
        };
        let url = match p.base_url {
            None => match old { Some(e) => e.base_url, None => None },
            Some(u) => if u.len() == 0 { None } else { Some(u) },
        };
        match key_r {
            Err(m) => Err(m),
            Ok(k) => Ok(ProviderV { id: p.id, family: p.family, api_key: k, base_url: url }),
        }
    }
}

/// The wire endpoints resolved in order, or the first refusal.
pub open spec fn merged_endpoints(live: Seq<(Seq<char>, ProviderV)>, wire: Seq<(Seq<char>, PatchV)>) -> Result<
    Seq<(Seq<char>, ProviderV)>,
    Seq<char>,
>
    decreases wire.len(),
{
    if wire.len() == 0 {
        Ok(Seq::empty())
    } else {
        match merged_endpoints(live, wire.drop_last()) {
            Err(m) => Err(m),
            Ok(done) => match endpoint_step(live, wire.last().0, wire.last().1) {
                Err(m) => Err(m),
                Ok(e) => Ok(done.push((wire.last().0, e))),
            },
        }
    }
}

pub open spec fn msg_bad_set_name(name: Seq<char>) -> Seq<char> {
    "set name '"@ + name + "' must match ^[A-Za-z0-9_-]+$ (letters, digits, '_', '-')"@
}

pub open spec fn msg_duplicate_set(name: Seq<char>) -> Seq<char> {
    "duplicate set name '"@ + name + "'"@
}

/// The first refused wire set name: an invalid spelling, or a name seen
/// before.
pub open spec fn set_names_error(names: Seq<Seq<char>>) -> Option<Seq<char>>
    decreases names.len(),
{
    if names.len() == 0 {
        None
    } else {
        match set_names_error(names.drop_last()) {
            Some(m) => Some(m),
            None => if !valid_set_name(names.last()) {
                Some(msg_bad_set_name(names.last()))
            } else if names.drop_last().contains(names.last()) {
                Some(msg_duplicate_set(names.last()))
            } else {
                None
            },
        }
    }
}

/// `r` holds the sets of `w`, sorted by name.
pub open spec fn sorted_sets_of(r: Seq<SetV>, w: Seq<SetV>) -> bool {
    &&& sorted_strict(set_names(r))
    &&& forall|s: SetV| r.contains(s) <==> w.contains(s)
}

/// The sets of `w` sorted by name.
pub open spec fn sort_sets(w: Seq<SetV>) -> Seq<SetV> {
    choose|r: Seq<SetV>| sorted_sets_of(r, w)
}

/// Name-sorted set lists with the same members are equal.
pub proof fn lemma_sorted_sets_unique(a: Seq<SetV>, b: Seq<SetV>)
    requires
        sorted_strict(set_names(a)),
        sorted_strict(set_names(b)),
        forall|s: SetV| a.contains(s) <==> b.contains(s),
    ensures
        a == b,
{
    let na = set_names(a);
    let nb = set_names(b);
    assert forall|x: Seq<char>| na.contains(x) <==> nb.contains(x) by {
        if na.contains(x) {
            let i = choose|i: int| 0 <= i < na.len() && na[i] == x;
            assert(a.contains(a[i]));
            let j = choose|j: int| 0 <= j < b.len() && b[j] == a[i];
            assert(nb[j] == x);
        }
        if nb.contains(x) {
            let i = choose|i: int| 0 <= i < nb.len() && nb[i] == x;
            assert(b.contains(b[i]));
            let j = choose|j: int| 0 <= j < a.len() && a[j] == b[i];
            assert(na[j] == x);
        }
    }
    crate::order::lemma_sorted_same_members(na, nb);
    assert(a.len() == b.len());
    assert forall|i: int| 0 <= i < a.len() implies a[i] == b[i] by {
        assert(a.contains(a[i]));
        let j = choose|j: int| 0 <= j < b.len() && b[j] == a[i];
        if j != i {
            assert(nb[j] == na[i]);
            assert(na[i] == nb[i]);
            if j < i {
                assert(lex_lt(nb[j], nb[i]));
            } else {
                assert(lex_lt(nb[i], nb[j]));
            }
            crate::order::lemma_lex_irreflexive(nb[i]);
        }
    }
    assert(a =~= b);
}

/// All profiles of the sets, set by set.
pub open spec fn flat_profiles(sets: Seq<SetV>) -> Seq<ProfileV>
    decreases sets.len(),
{
    if sets.len() == 0 {
        Seq::empty()
    } else {
        flat_profiles(sets.drop_last()) + sets.last().profiles
    }
}

/// The first id that repeats an earlier one.
pub open spec fn first_repeat(ids: Seq<Seq<char>>) -> Option<Seq<char>>
    decreases ids.len(),
{
    if ids.len() == 0 {
        None
    } else {
        match first_repeat(ids.drop_last()) {
            Some(x) => Some(x),
            None => if ids.drop_last().contains(ids.last()) { Some(ids.last()) } else { None },
        }
    }
}

pub open spec fn profile_ids(ps: Seq<ProfileV>) -> Seq<Seq<char>> {
    ps.map_values(|p: ProfileV| p.id)
}

pub open spec fn msg_duplicate_profile(id: Seq<char>) -> Seq<char> {
    "duplicate profile id '"@ + id + "'"@
}

pub open spec fn msg_textless(kind: Seq<char>, id: Seq<char>) -> Seq<char> {
    kind + " profile '"@ + id + "' must accept text"@
}

/// The first profile that cannot accept text.
pub open spec fn first_textless(ps: Seq<ProfileV>) -> Option<Seq<char>>
    decreases ps.len(),
{
    if ps.len() == 0 {
        None
    } else {
        match first_textless(ps.drop_last()) {
            Some(x) => Some(x),
            None => if ps.last().modalities.contains(Modality::Text) { None } else { Some(ps.last().id) },
        }
    }
}

/// The value of a whole config.
pub ghost struct ConfigV {
    pub sets: Seq<SetV>,
    pub default: Seq<char>,
    pub parking: Seq<ProfileV>,
    pub endpoints: Seq<(Seq<char>, ProviderV)>,
}

impl View for ProfileConfig {
    type V = ConfigV;

    open spec fn view(&self) -> ConfigV {
        ConfigV {
            sets: sets_view(self.sets@),
            default: self.default@,
            parking: profiles_view(self.parking@),
            endpoints: endpoints_view(self.endpoints@),
        }
    }
}

/// The merged config, or the first refusal message: endpoints first,
/// then set names, then the default marker, then repeated profile ids
/// (sets in name order, then parking), then text membership (same
/// order).
pub open spec fn merge_spec(
    live: ConfigV,
    eps: Seq<(Seq<char>, PatchV)>,
    wire_sets: Seq<SetV>,
    default: Option<Seq<char>>,
    parking: Option<Seq<ProfileV>>,
) -> Result<ConfigV, Seq<char>> {
    match merged_endpoints(live.endpoints, eps) {
        Err(m) => Err(m),
        Ok(endpoints) => match set_names_error(set_names(wire_sets)) {
            Some(m) => Err(m),
            None => {
                let sets = sort_sets(wire_sets);
                match default_spec(set_names(sets), match default { Some(d) => d, None => Seq::empty() }) {
                    Err(m) => Err(m),
                    Ok(d) => {
                        let park = match parking { Some(p) => p, None => live.parking };
                        match first_repeat(profile_ids(flat_profiles(sets) + park)) {
                            Some(id) => Err(msg_duplicate_profile(id)),
                            None => match first_textless(flat_profiles(sets)) {
                                Some(id) => Err(msg_textless("set"@, id)),
                                None => match first_textless(park) {
                                    Some(id) => Err(msg_textless("parking"@, id)),
                                    None => Ok(ConfigV { sets, default: d, parking: park, endpoints }),
                                },
                            },
                        }
                    },
                }
            },
        },
    }
}

pub open spec fn patches_view(s: Seq<(String, ProviderPatch)>) -> Seq<(Seq<char>, PatchV)> {
    s.map_values(|e: (String, ProviderPatch)| (e.0@, e.1@))
}

pub open spec fn wire_sets_view(s: Seq<SetWire>) -> Seq<SetV> {
    s.map_values(|x: SetWire| x@)
}

fn find_endpoint<'a>(eps: &'a Vec<(String, Provider)>, key: &String) -> (r: Option<&'a Provider>)
    ensures
        match endpoint_of(endpoints_view(eps@), key@) {
            Some(e) => r matches Some(p) && p@ == e,
            None => r is None,
        },
{
    let ghost ev = endpoints_view(eps@);
    let mut i: usize = 0;
    while i < eps.len()
        invariant
            ev == endpoints_view(eps@),
            i <= eps.len(),
            endpoint_of(ev.take(i as int), key@) is None,
        decreases eps.len() - i,
    {
        proof { assert(ev.take(i + 1).drop_last() =~= ev.take(i as int)); }
        if eps[i].0 == *key {
            proof { lemma_endpoint_prefix(ev, key@, i as int + 1); }
            return Some(&eps[i].1);
        }
        i = i + 1;
    }
    proof { assert(ev.take(i as int) =~= ev); }
    None
}

proof fn lemma_endpoint_prefix(ev: Seq<(Seq<char>, ProviderV)>, key: Seq<char>, k: int)
    requires
        0 <= k <= ev.len(),
        endpoint_of(ev.take(k), key) is Some,
    ensures
        endpoint_of(ev, key) == endpoint_of(ev.take(k), key),
    decreases ev.len() - k,
{
    if k < ev.len() {
        assert(ev.take(k + 1).drop_last() =~= ev.take(k));
        lemma_endpoint_prefix(ev, key, k + 1);
    } else {
        assert(ev.take(k) =~= ev);
    }
}

fn merge_endpoint(live: &Vec<(String, Provider)>, key: &String, p: &ProviderPatch) -> (r: Result<Provider, String>)
    ensures
        match endpoint_step(endpoints_view(live@), key@, p@) {
            Ok(e) => r matches Ok(x) && x@ == e,
            Err(m) => r matches Err(x) && x@ == m,
        },
{
    if *key != p.id {
        return Err(String::from_str("provider map key '").concat(key.as_str()).concat("' does not match id '").concat(
            p.id.as_str(),
        ).concat("'"));
    }
    let old = find_endpoint(live, key);
    let api_key = match &p.api_key {
        None => match old {
            Some(e) => e.api_key.clone(),
            None => return Err(String::from_str("provider '").concat(key.as_str()).concat("' is new; api_key is required")),
        },
        Some(k) => {
            if k.as_str().unicode_len() == 0 {
                return Err(String::from_str("provider '").concat(key.as_str()).concat("': api_key must not be empty"));
            }
            match old {
                Some(e) => {
                    let m = mask_key(e.api_key.as_str());
                    if m == *k { e.api_key.clone() } else { k.clone() }
                },
                None => k.clone(),
            }
        },
    };
    let base_url = match &p.base_url {
        None => match old {
            Some(e) => copy_opt_string(&e.base_url),
            None => None,
        },
        Some(u) => if u.as_str().unicode_len() == 0 { None } else { Some(u.clone()) },
    };
    Ok(Provider { id: p.id.clone(), family: p.family.clone(), api_key, base_url })
}

fn merge_endpoints(live: &Vec<(String, Provider)>, wire: &Vec<(String, ProviderPatch)>) -> (r: Result<Vec<(String, Provider)>, String>)
    ensures
        match merged_endpoints(endpoints_view(live@), patches_view(wire@)) {
            Ok(e) => r matches Ok(v) && endpoints_view(v@) == e,
            Err(m) => r matches Err(x) && x@ == m,
        },
{
    let ghost lv = endpoints_view(live@);
    let ghost wv = patches_view(wire@);
    let mut out: Vec<(String, Provider)> = Vec::new();
    let mut i: usize = 0;
    proof {
        assert(wv.take(0) =~= Seq::<(Seq<char>, PatchV)>::empty());
        assert(endpoints_view(out@) =~= Seq::<(Seq<char>, ProviderV)>::empty());
    }
    while i < wire.len()
        invariant
            lv == endpoints_view(live@),
            wv == patches_view(wire@),
            i <= wire.len(),
            merged_endpoints(lv, wv.take(i as int)) == Ok::<Seq<(Seq<char>, ProviderV)>, Seq<char>>(endpoints_view(out@)),
        decreases wire.len() - i,
    {
        proof {
            assert(wv.take(i + 1).drop_last() =~= wv.take(i as int));
            assert(wv.take(i + 1).last() == (wire@[i as int].0@, wire@[i as int].1@));
        }
        match merge_endpoint(live, &wire[i].0, &wire[i].1) {
            Ok(e) => {
                let ghost pre = endpoints_view(out@);
                out.push((wire[i].0.clone(), e));
                proof { assert(endpoints_view(out@) =~= pre.push((wire@[i as int].0@, out@.last().1@))); }
            },
            Err(m) => {
                proof { lemma_endpoints_err_sticks(lv, wv, i as int + 1); }
                return Err(m);
            },
        }
        i = i + 1;
    }
    proof { assert(wv.take(i as int) =~= wv); }
    Ok(out)
}

proof fn lemma_endpoints_err_sticks(lv: Seq<(Seq<char>, ProviderV)>, wv: Seq<(Seq<char>, PatchV)>, k: int)
    requires
        0 <= k <= wv.len(),
        merged_endpoints(lv, wv.take(k)) is Err,
    ensures
        merged_endpoints(lv, wv) == merged_endpoints(lv, wv.take(k)),
    decreases wv.len() - k,
{
    if k < wv.len() {
        assert(wv.take(k + 1).drop_last() =~= wv.take(k));
        lemma_endpoints_err_sticks(lv, wv, k + 1);
    } else {
        assert(wv.take(k) =~= wv);
    }
}

proof fn lemma_set_error_sticks(names: Seq<Seq<char>>, k: int)
    requires
        0 <= k <= names.len(),
        set_names_error(names.take(k)) is Some,
    ensures
        set_names_error(names) == set_names_error(names.take(k)),
    decreases names.len() - k,
{
    if k < names.len() {
        assert(names.take(k + 1).drop_last() =~= names.take(k));
        lemma_set_error_sticks(names, k + 1);
    } else {
        assert(names.take(k) =~= names);
    }
}

fn copy_set_wire(w: &SetWire) -> (r: ProfileSet)
    ensures r@ == w@,
{
    ProfileSet { name: w.name.clone(), description: copy_opt_string(&w.description), profiles: copy_profiles(&w.profiles) }
}

/// Validate the wire sets' names and sort them by name.
fn sort_wire_sets(wire: &Vec<SetWire>) -> (r: Result<Vec<ProfileSet>, String>)
    ensures
        match set_names_error(set_names(wire_sets_view(wire@))) {
            Some(m) => r matches Err(x) && x@ == m,
            None => r matches Ok(v) && sorted_sets_of(sets_view(v@), wire_sets_view(wire@)),
        },
{
    let ghost wv = wire_sets_view(wire@);
    let ghost wn = set_names(wv);
    let mut names: Vec<String> = Vec::new();
    let mut sets: Vec<ProfileSet> = Vec::new();
    let mut i: usize = 0;
    proof {
        assert(wn.take(0) =~= Seq::<Seq<char>>::empty());
        assert(set_names(sets_view(sets@)) =~= Seq::<Seq<char>>::empty());
    }
    while i < wire.len()
        invariant
            wv == wire_sets_view(wire@),
            wn == set_names(wv),
            i <= wire.len(),
            set_names_error(wn.take(i as int)) is None,
            names.deep_view() == set_names(sets_view(sets@)),
            sorted_strict(names.deep_view()),
            forall|x: Seq<char>| names.deep_view().contains(x) <==> wn.take(i as int).contains(x),
            forall|st: SetV| sets_view(sets@).contains(st) <==> wv.take(i as int).contains(st),
        decreases wire.len() - i,
    {
        let w = &wire[i];
        proof {
            assert(wn.take(i + 1).drop_last() =~= wn.take(i as int));
            assert(wn.take(i + 1).last() == w.name@);
        }
        if !is_valid_set_name(w.name.as_str()) {
            proof { lemma_set_error_sticks(wn, i as int + 1); }
            return Err(String::from_str("set name '").concat(w.name.as_str()).concat(
                "' must match ^[A-Za-z0-9_-]+$ (letters, digits, '_', '-')",
            ));
        }
        let (pos, hit) = sorted_position(&names, &w.name);
        if hit {
            proof { lemma_set_error_sticks(wn, i as int + 1); }
            return Err(String::from_str("duplicate set name '").concat(w.name.as_str()).concat("'"));
        }
        let ghost old_names = names.deep_view();
        let ghost old_sets = sets_view(sets@);
        proof { lemma_insert_sorted(old_names, pos as int, w.name@); }
        names.insert(pos, w.name.clone());
        sets.insert(pos, copy_set_wire(w));
        proof {
            assert(names.deep_view() =~= old_names.insert(pos as int, w.name@));
            assert(sets_view(sets@) =~= old_sets.insert(pos as int, w@));
            assert(set_names(sets_view(sets@)) =~= set_names(old_sets).insert(pos as int, w.name@));
            assert(wv.take(i + 1) =~= wv.take(i as int).push(w@));
            let wn1 = wn.take(i + 1);
            let wn0 = wn.take(i as int);
            let wv1 = wv.take(i + 1);
            let wv0 = wv.take(i as int);
            assert forall|x: Seq<char>| names.deep_view().contains(x) <==> wn1.contains(x) by {
                let nn = names.deep_view();
                if nn.contains(x) {
                    let k = choose|k: int| 0 <= k < nn.len() && nn[k] == x;
                    if k < pos {
                        assert(old_names[k] == x);
                        assert(old_names.contains(x));
                        let j = choose|j: int| 0 <= j < i && wn0[j] == x;
                        assert(wn1[j] == x);
                    } else if k > pos {
                        assert(old_names[k - 1] == x);
                        assert(old_names.contains(x));
                        let j = choose|j: int| 0 <= j < i && wn0[j] == x;
                        assert(wn1[j] == x);
                    } else {
                        assert(wn1[i as int] == x);
                    }
                }
                if wn1.contains(x) {
                    let j = choose|j: int| 0 <= j < i + 1 && wn1[j] == x;
                    if j < i {
                        assert(wn0[j] == x);
                        assert(old_names.contains(x));
                        let k = choose|k: int| 0 <= k < old_names.len() && old_names[k] == x;
                        if k < pos { assert(nn[k] == x); } else { assert(nn[k + 1] == x); }
                    } else {
                        assert(nn[pos as int] == x);
                    }
                }
            }
            assert forall|st: SetV| sets_view(sets@).contains(st) <==> wv1.contains(st) by {
                let ns = sets_view(sets@);
                if ns.contains(st) {
                    let k = choose|k: int| 0 <= k < ns.len() && ns[k] == st;
                    if k < pos {
                        assert(old_sets[k] == st);
                        assert(old_sets.contains(st));
                        let j = choose|j: int| 0 <= j < i && wv0[j] == st;
                        assert(wv1[j] == st);
                    } else if k > pos {
                        assert(old_sets[k - 1] == st);
                        assert(old_sets.contains(st));
                        let j = choose|j: int| 0 <= j < i && wv0[j] == st;
                        assert(wv1[j] == st);
                    } else {
                        assert(wv1[i as int] == st);
                    }
                }
                if wv1.contains(st) {
                    let j = choose|j: int| 0 <= j < i + 1 && wv1[j] == st;
                    if j < i {
                        assert(wv0[j] == st);
                        assert(old_sets.contains(st));
                        let k = choose|k: int| 0 <= k < old_sets.len() && old_sets[k] == st;
                        if k < pos { assert(ns[k] == st); } else { assert(ns[k + 1] == st); }
                    } else {
                        assert(ns[pos as int] == st);
                    }
                }
            }
            assert(!wn.take(i as int).contains(w.name@));
            assert(set_names_error(wn.take(i + 1)) is None);
        }
        i = i + 1;
    }
    proof {
        assert(wn.take(i as int) =~= wn);
        assert(wv.take(i as int) =~= wv);
    }
    Ok(sets)
}

/// The profiles of `sets`, set by set, then `park`.
fn all_profiles(sets: &Vec<ProfileSet>, park: &Vec<Profile>) -> (r: Vec<Profile>)
    ensures profiles_view(r@) == flat_profiles(sets_view(sets@)) + profiles_view(park@),
{
    let ghost sv = sets_view(sets@);
    let mut out: Vec<Profile> = Vec::new();
    let mut i: usize = 0;
    proof {
        assert(sv.take(0) =~= Seq::<SetV>::empty());
        assert(profiles_view(out@) =~= Seq::<ProfileV>::empty());
    }
    while i < sets.len()
        invariant
            sv == sets_view(sets@),
            i <= sets.len(),
            profiles_view(out@) == flat_profiles(sv.take(i as int)),
        decreases sets.len() - i,
    {
        let ps = &sets[i].profiles;
        let ghost base = profiles_view(out@);
        let mut j: usize = 0;
        proof { assert(base + profiles_view(ps@).take(0) =~= base); }
        while j < ps.len()
            invariant
                j <= ps.len(),
                profiles_view(out@) == base + profiles_view(ps@).take(j as int),
            decreases ps.len() - j,
        {
            let ghost pre = profiles_view(out@);
            out.push(ps[j].copy());
            proof {
                assert(profiles_view(out@) =~= pre.push(ps@[j as int]@));
                assert(base + profiles_view(ps@).take(j + 1) =~= (base + profiles_view(ps@).take(j as int)).push(ps@[j as int]@));
            }
            j = j + 1;
        }
        proof {
            assert(profiles_view(ps@).take(j as int) =~= profiles_view(ps@));
            assert(sv.take(i + 1).drop_last() =~= sv.take(i as int));
            assert(sv.take(i + 1).last() == sets@[i as int]@);
        }
        i = i + 1;
    }
    proof { assert(sv.take(i as int) =~= sv); }
    let ghost base = profiles_view(out@);
    let mut k: usize = 0;
    proof { assert(base + profiles_view(park@).take(0) =~= base); }
    while k < park.len()
        invariant
            k <= park.len(),
            profiles_view(out@) == base + profiles_view(park@).take(k as int),
        decreases park.len() - k,
    {
        let ghost pre = profiles_view(out@);
        out.push(park[k].copy());
        proof {
            assert(profiles_view(out@) =~= pre.push(park@[k as int]@));
            assert(base + profiles_view(park@).take(k + 1) =~= (base + profiles_view(park@).take(k as int)).push(park@[k as int]@));
        }
        k = k + 1;
    }
    proof { assert(profiles_view(park@).take(k as int) =~= profiles_view(park@)); }
    out
}

/// The first repeated profile id in `ps`, if any.
fn find_repeat(ps: &Vec<Profile>) -> (r: Option<String>)
    ensures
        match first_repeat(profile_ids(profiles_view(ps@))) {
            Some(id) => r matches Some(x) && x@ == id,
            None => r is None,
        },
{
    let ghost ids = profile_ids(profiles_view(ps@));
    let mut seen: Vec<String> = Vec::new();
    let mut i: usize = 0;
    proof { assert(ids.take(0) =~= Seq::<Seq<char>>::empty()); }
    while i < ps.len()
        invariant
            ids == profile_ids(profiles_view(ps@)),
            i <= ps.len(),
            seen.deep_view() == ids.take(i as int),
            first_repeat(ids.take(i as int)) is None,
        decreases ps.len() - i,
    {
        proof {
            assert(ids.take(i + 1).drop_last() =~= ids.take(i as int));
            assert(ids.take(i + 1).last() == ps@[i as int].id@);
        }
        if crate::team::status::contains_string(&seen, &ps[i].id) {
            proof { lemma_repeat_sticks(ids, i as int + 1); }
            return Some(ps[i].id.clone());
        }
        let ghost pre = seen.deep_view();
        seen.push(ps[i].id.clone());
        proof { assert(seen.deep_view() =~= pre.push(ps@[i as int].id@)); }
        i = i + 1;
    }
    proof { assert(ids.take(i as int) =~= ids); }
    None
}

proof fn lemma_repeat_sticks(ids: Seq<Seq<char>>, k: int)
    requires
        0 <= k <= ids.len(),
        first_repeat(ids.take(k)) is Some,
    ensures
        first_repeat(ids) == first_repeat(ids.take(k)),
    decreases ids.len() - k,
{
    if k < ids.len() {
        assert(ids.take(k + 1).drop_last() =~= ids.take(k));
        lemma_repeat_sticks(ids, k + 1);
    } else {
        assert(ids.take(k) =~= ids);
    }
}

proof fn lemma_textless_sticks(ps: Seq<ProfileV>, k: int)
    requires
        0 <= k <= ps.len(),
        first_textless(ps.take(k)) is Some,
    ensures
        first_textless(ps) == first_textless(ps.take(k)),
    decreases ps.len() - k,
{
    if k < ps.len() {
        assert(ps.take(k + 1).drop_last() =~= ps.take(k));
        lemma_textless_sticks(ps, k + 1);
    } else {
        assert(ps.take(k) =~= ps);
    }
}

/// Whether `m` holds the text modality.
fn accepts_text(m: &Vec<Modality>) -> (b: bool)
    ensures b == m@.contains(Modality::Text),
{
    let mut i: usize = 0;
    while i < m.len()
        invariant
            i <= m.len(),
            forall|j: int| 0 <= j < i ==> m@[j] != Modality::Text,
        decreases m.len() - i,
    {
        if m[i] == Modality::Text {
            proof { assert(m@[i as int] == Modality::Text); }
            return true;
        }
        i = i + 1;
    }
    false
}

/// The id of the first profile of `ps` that cannot accept text.
fn find_textless(ps: &Vec<Profile>) -> (r: Option<String>)
    ensures
        match first_textless(profiles_view(ps@)) {
            Some(id) => r matches Some(x) && x@ == id,
            None => r is None,
        },
{
    let ghost pv = profiles_view(ps@);
    let mut i: usize = 0;
    proof { assert(pv.take(0) =~= Seq::<ProfileV>::empty()); }
    while i < ps.len()
        invariant
            pv == profiles_view(ps@),
            i <= ps.len(),
            first_textless(pv.take(i as int)) is None,
        decreases ps.len() - i,
    {
        proof {
            assert(pv.take(i + 1).drop_last() =~= pv.take(i as int));
            assert(pv.take(i + 1).last() == ps@[i as int]@);
        }
        if !accepts_text(&ps[i].modalities) {
            proof { lemma_textless_sticks(pv, i as int + 1); }
            return Some(ps[i].id.clone());
        }
        i = i + 1;
    }
    proof { assert(pv.take(i as int) =~= pv); }
    None
}

/// Resolve a wire config against the live one into a full config
/// carrying real keys: endpoints resolved by the tri-state rules, set
/// names checked and the sets sorted by name, the default marker
/// resolved, parking kept (absent) or replaced (present), then profile
/// ids unique across sets and parking and every profile accepting text.
/// Any refusal is a `400` with the first problem found.
pub fn merge_wire(live: &ProfileConfig, wire: &ProfileConfigWire) -> (r: Result<ProfileConfig, ApiError>)
    ensures
        match merge_spec(
            live@,
            patches_view(wire.endpoints@),
            wire_sets_view(wire.sets@),
            opt_view(wire.default),
            match wire.parking { Some(p) => Some(profiles_view(p@)), None => None },
        ) {
            Ok(c) => r matches Ok(x) && x@ == c,
            Err(m) => r matches Err(e) && e.status == 400 && e.message@ == m,
        },
{
    let endpoints = match merge_endpoints(&live.endpoints, &wire.endpoints) {
        Ok(e) => e,
        Err(m) => return Err(ApiError::bad_request(m)),
    };
    let sets = match sort_wire_sets(&wire.sets) {
        Ok(s) => s,
        Err(m) => return Err(ApiError::bad_request(m)),
    };
    proof {
        lemma_sorted_sets_unique(sets_view(sets@), sort_sets(wire_sets_view(wire.sets@)));
    }
    let name = match &wire.default {
        Some(d) => d.clone(),
        None => String::new(),
    };
    let default = match normalize_default(&sets, &name) {
        Ok(d) => d,
        Err(m) => return Err(ApiError::bad_request(m)),
    };
    let parking = match &wire.parking {
        Some(p) => copy_profiles(p),
        None => copy_profiles(&live.parking),
    };
    let all = all_profiles(&sets, &parking);
    proof {
        assert(profile_ids(profiles_view(all@)) =~= profile_ids(flat_profiles(sets_view(sets@)) + profiles_view(parking@)));
    }
    match find_repeat(&all) {
        Some(id) => {
            return Err(ApiError::bad_request(String::from_str("duplicate profile id '").concat(id.as_str()).concat("'")));
        },
        None => {},
    }
    let in_sets = all_profiles(&sets, &Vec::new());
    proof {
        assert(profiles_view(in_sets@) =~= flat_profiles(sets_view(sets@)));
    }
    match find_textless(&in_sets) {
        Some(id) => {
            return Err(ApiError::bad_request(String::from_str("set").concat(" profile '").concat(id.as_str()).concat(
                "' must accept text",
            )));
        },
        None => {},
    }
    match find_textless(&parking) {
        Some(id) => {
            return Err(ApiError::bad_request(String::from_str("parking").concat(" profile '").concat(id.as_str()).concat(
                "' must accept text",
            )));
        },
        None => {},
    }
    Ok(ProfileConfig { sets, default, parking, endpoints })
}

// ---- reading and the default marker ----

fn copy_set(x: &ProfileSet) -> (r: ProfileSet)
    ensures r@ == x@,
{
    ProfileSet { name: x.name.clone(), description: copy_opt_string(&x.description), profiles: copy_profiles(&x.profiles) }
}

pub fn copy_sets(v: &Vec<ProfileSet>) -> (r: Vec<ProfileSet>)
    ensures sets_view(r@) == sets_view(v@),
{
    let mut out: Vec<ProfileSet> = Vec::new();
    let mut i: usize = 0;
    while i < v.len()
        invariant
            i <= v.len(),
            sets_view(out@) == sets_view(v@).take(i as int),
        decreases v.len() - i,
    {
        let ghost pre = sets_view(out@);
        out.push(copy_set(&v[i]));
        proof {
            assert(sets_view(out@) =~= pre.push(v@[i as int]@));
            assert(sets_view(v@).take(i + 1) =~= sets_view(v@).take(i as int).push(v@[i as int]@));
        }
        i = i + 1;
    }
    proof { assert(sets_view(v@).take(i as int) =~= sets_view(v@)); }
    out
}

/// The endpoints with every key replaced by its masked form.
pub open spec fn masked_endpoints(e: Seq<(Seq<char>, ProviderV)>) -> Seq<(Seq<char>, ProviderV)> {
    e.map_values(|x: (Seq<char>, ProviderV)| (x.0, ProviderV { api_key: masked(x.1.api_key), ..x.1 }))
}

/// The config as GET and PUT return it: every endpoint's key masked,
/// everything else as is.
pub fn masked_config(config: &ProfileConfig) -> (r: ProfileConfig)
    ensures
        r@.sets == config@.sets,
        r@.default == config@.default,
        r@.parking == config@.parking,
        r@.endpoints == masked_endpoints(config@.endpoints),
{
    let mut eps: Vec<(String, Provider)> = Vec::new();
    let mut i: usize = 0;
    while i < config.endpoints.len()
        invariant
            i <= config.endpoints.len(),
            endpoints_view(eps@) == masked_endpoints(endpoints_view(config.endpoints@)).take(i as int),
        decreases config.endpoints.len() - i,
    {
        let (k, p) = (&config.endpoints[i].0, &config.endpoints[i].1);
        let ghost pre = endpoints_view(eps@);
        eps.push((k.clone(), Provider {
            id: p.id.clone(),
            family: p.family.clone(),
            api_key: mask_key(p.api_key.as_str()),
            base_url: copy_opt_string(&p.base_url),
        }));
        proof {
            let me = masked_endpoints(endpoints_view(config.endpoints@));
            assert(me[i as int] == (k@, ProviderV { id: p.id@, family: p.family@, api_key: masked(p.api_key@), base_url: opt_view(p.base_url) }));
            assert(endpoints_view(eps@) =~= pre.push(me[i as int]));
            assert(me.take(i + 1) =~= me.take(i as int).push(me[i as int]));
        }
        i = i + 1;
    }
    proof { assert(masked_endpoints(endpoints_view(config.endpoints@)).take(i as int) =~= masked_endpoints(endpoints_view(config.endpoints@))); }
    ProfileConfig {
        sets: copy_sets(&config.sets),
        default: config.default.clone(),
        parking: copy_profiles(&config.parking),
        endpoints: eps,
    }
}

/// Whether a set of this name exists.
pub fn has_set(config: &ProfileConfig, name: &String) -> (b: bool)
    ensures b == set_names(config@.sets).contains(name@),
{
    let ghost names = set_names(config@.sets);
    let mut i: usize = 0;
    while i < config.sets.len()
        invariant
            i <= config.sets.len(),
            names == set_names(config@.sets),
            forall|k: int| 0 <= k < i ==> #[trigger] names[k] != name@,
        decreases config.sets.len() - i,
    {
        proof { assert(names[i as int] == config.sets@[i as int].name@); }
        if config.sets[i].name == *name {
            proof { assert(names.contains(name@)); }
            return true;
        }
        i = i + 1;
    }
    false
}

/// The set names, in order.
pub fn set_name_list(config: &ProfileConfig) -> (r: Vec<String>)
    ensures r.deep_view() == set_names(config@.sets),
{
    let mut out: Vec<String> = Vec::new();
    let mut i: usize = 0;
    while i < config.sets.len()
        invariant
            i <= config.sets.len(),
            out.deep_view() == set_names(config@.sets).take(i as int),
        decreases config.sets.len() - i,
    {
        let ghost pre = out.deep_view();
        out.push(config.sets[i].name.clone());
        proof {
            assert(out.deep_view() =~= pre.push(config.sets@[i as int].name@));
            assert(set_names(config@.sets).take(i + 1) =~= set_names(config@.sets).take(i as int).push(config.sets@[i as int].name@));
        }
        i = i + 1;
    }
    proof { assert(set_names(config@.sets).take(i as int) =~= set_names(config@.sets)); }
    out
}

pub open spec fn msg_unknown_default(name: Seq<char>, names: Seq<Seq<char>>) -> Seq<char> {
    "unknown set '"@ + name + "'; available: "@ + join_names(names)
}

/// Transfer the default-set marker to an existing set (`400` naming the
/// available sets otherwise); nothing else changes.
pub fn set_default(config: &mut ProfileConfig, name: &String) -> (r: Result<(), ApiError>)
    ensures
        set_names(old(config)@.sets).contains(name@) ==> r is Ok && final(config)@ == (ConfigV { default: name@, ..old(config)@ }),
        !set_names(old(config)@.sets).contains(name@) ==> (r matches Err(e) && e.status == 400
            && e.message@ == msg_unknown_default(name@, set_names(old(config)@.sets))) && final(config)@ == old(config)@,
{
    if !has_set(config, name) {
        let names = set_name_list(config);
        let avail = join_with_commas(&names);
        return Err(ApiError::bad_request(String::from_str("unknown set '").concat(name.as_str()).concat("'; available: ").concat(
            avail.as_str(),
        )));
    }
    config.default = name.clone();
    Ok(())
}

// ---- bindings: stranded, referencing, apply ----

pub open spec fn binding_of(e: RegistryEntry) -> Option<Seq<char>> {
    opt_view(e.ident().config.profile_set)
}

pub open spec fn msg_stranded(id: Seq<char>, set: Seq<char>) -> Seq<char> {
    id + " → '"@ + set + "'"@
}

/// The bindings a config would strand, in registry order: one
/// `id → 'set'` line per agent recording a set the config lacks.
pub open spec fn stranded_spec(l: Seq<(String, RegistryEntry)>, names: Seq<Seq<char>>) -> Seq<Seq<char>>
    decreases l.len(),
{
    if l.len() == 0 {
        Seq::empty()
    } else {
        let prev = stranded_spec(l.drop_last(), names);
        match binding_of(l.last().1) {
            Some(b) => if names.contains(b) { prev } else { prev.push(msg_stranded(l.last().0@, b)) },
            None => prev,
        }
    }
}

/// The profile-set bindings the candidate config would strand.
pub fn dangling_bindings(registry: &AgentRegistry, config: &ProfileConfig) -> (r: Vec<String>)
    ensures r.deep_view() == stranded_spec(registry.listing(), set_names(config@.sets)),
{
    let entries = registry.iter();
    let ghost l = registry.listing();
    let mut out: Vec<String> = Vec::new();
    let mut i: usize = 0;
    proof { assert(out.deep_view() =~= stranded_spec(l.take(0), set_names(config@.sets))); }
    while i < entries.len()
        invariant
            entries@ == l,
            i <= entries.len(),
            out.deep_view() == stranded_spec(l.take(i as int), set_names(config@.sets)),
        decreases entries.len() - i,
    {
        proof { assert(l.take(i + 1).drop_last() =~= l.take(i as int)); }
        match &entries[i].1.identity().config.profile_set {
            Some(b) => {
                if !has_set(config, b) {
                    let ghost pre = out.deep_view();
                    out.push(entries[i].0.clone().concat(" → '").concat(b.as_str()).concat("'"));
                    proof { assert(out.deep_view() =~= pre.push(msg_stranded(l[i as int].0@, b@))); }
                }
            },
            None => {},
        }
        i = i + 1;
    }
    proof { assert(l.take(i as int) =~= l); }
    out
}

pub open spec fn msg_strands(lines: Seq<Seq<char>>) -> Seq<char> {
    "config drops sets still bound by agents: "@ + join_names(lines)
        + "; re-PUT with force=true, or use DELETE /profiles/sets/{name} to remove a referenced set"@
}

/// The reference-integrity gate of a wholesale update: stranded
/// bindings refuse (`409` carrying the list) unless forced.
pub fn check_stranded(stranded: Vec<String>, force: bool) -> (r: Result<(), ApiError>)
    ensures
        (r is Ok) <==> (stranded@.len() == 0 || force),
        r matches Err(e) ==> e.status == 409 && e.message@ == msg_strands(stranded.deep_view())
            && e.dangling == Some(stranded),
{
    if stranded.len() > 0 && !force {
        let joined = join_with_commas(&stranded);
        let m = String::from_str("config drops sets still bound by agents: ").concat(joined.as_str()).concat(
            "; re-PUT with force=true, or use DELETE /profiles/sets/{name} to remove a referenced set",
        );
        return Err(ApiError::conflict_dangling(m, stranded));
    }
    Ok(())
}

/// An agent bound to a profile set.
#[derive(Clone, Debug)]
pub struct SetReference {
    pub id: String,
    pub role: String,
}

/// The agents recording `name`, in registry order.
pub open spec fn refs_spec(l: Seq<(String, RegistryEntry)>, name: Seq<char>) -> Seq<(Seq<char>, Seq<char>)>
    decreases l.len(),
{
    if l.len() == 0 {
        Seq::empty()
    } else {
        let prev = refs_spec(l.drop_last(), name);
        if binding_of(l.last().1) == Some(name) {
            prev.push((l.last().0@, l.last().1.ident().config.role@))
        } else {
            prev
        }
    }
}

/// Whether a root records `name`.
pub open spec fn root_bound_spec(l: Seq<(String, RegistryEntry)>, name: Seq<char>) -> bool {
    exists|i: int| 0 <= i < l.len() && binding_of(#[trigger] l[i].1) == Some(name) && l[i].1.is_root()
}

pub open spec fn refs_view(r: Seq<SetReference>) -> Seq<(Seq<char>, Seq<char>)> {
    r.map_values(|x: SetReference| (x.id@, x.role@))
}

/// The agents bound to `name`, and whether one of them is the root.
pub fn scan_references(registry: &AgentRegistry, name: &String) -> (r: (Vec<SetReference>, bool))
    ensures
        refs_view(r.0@) == refs_spec(registry.listing(), name@),
        r.1 == root_bound_spec(registry.listing(), name@),
{
    let entries = registry.iter();
    let ghost l = registry.listing();
    let mut refs: Vec<SetReference> = Vec::new();
    let mut root = false;
    let mut i: usize = 0;
    proof { assert(refs_view(refs@) =~= refs_spec(l.take(0), name@)); }
    while i < entries.len()
        invariant
            entries@ == l,
            i <= entries.len(),
            refs_view(refs@) == refs_spec(l.take(i as int), name@),
            root == exists|k: int| 0 <= k < i && binding_of(#[trigger] l[k].1) == Some(name@) && l[k].1.is_root(),
        decreases entries.len() - i,
    {
        proof { assert(l.take(i + 1).drop_last() =~= l.take(i as int)); }
        let cfg = &entries[i].1.identity().config;
        let bound = match &cfg.profile_set {
            Some(b) => *b == *name,
            None => false,
        };
        if bound {
            if cfg.created_by.is_none() {
                root = true;
            }
            let ghost pre = refs_view(refs@);
            refs.push(SetReference { id: entries[i].0.clone(), role: cfg.role.clone() });
            proof { assert(refs_view(refs@) =~= pre.push((l[i as int].0@, l[i as int].1.ident().config.role@))); }
        }
        i = i + 1;
    }
    proof { assert(l.take(i as int) =~= l); }
    (refs, root)
}

/// `r` is none of `interrupted`.
pub open spec fn outside(interrupted: Seq<SetReference>, r: SetReference) -> bool {
    forall|k: int| 0 <= k < interrupted.len() ==> #[trigger] interrupted[k].id@ != r.id@
}

/// The delete sweep's gate: the recheck blocks when the root landed on
/// the set, or a reference appeared outside the interrupted ones.
pub fn references_grew(interrupted: &Vec<SetReference>, recheck: &Vec<SetReference>, root_after: bool) -> (b: bool)
    ensures
        b == (root_after || exists|j: int| 0 <= j < recheck@.len() && outside(interrupted@, #[trigger] recheck@[j])),
{
    if root_after {
        return true;
    }
    let mut j: usize = 0;
    while j < recheck.len()
        invariant
            j <= recheck.len(),
            forall|jj: int| 0 <= jj < j ==> !outside(interrupted@, #[trigger] recheck@[jj]),
        decreases recheck.len() - j,
    {
        let mut k: usize = 0;
        let mut known = false;
        while k < interrupted.len()
            invariant
                k <= interrupted.len(),
                j < recheck.len(),
                known == exists|kk: int| 0 <= kk < k && #[trigger] interrupted@[kk].id@ == recheck@[j as int].id@,
            decreases interrupted.len() - k,
        {
            if interrupted[k].id == recheck[j].id {
                known = true;
            }
            k = k + 1;
        }
        if !known {
            proof {
                assert(outside(interrupted@, recheck@[j as int]));
            }
            return true;
        }
        proof {
            let kk = choose|kk: int| 0 <= kk < k && #[trigger] interrupted@[kk].id@ == recheck@[j as int].id@;
            assert(!outside(interrupted@, recheck@[j as int]));
        }
        j = j + 1;
    }
    false
}

// ---- set removal ----

/// What a set removal does next.
#[derive(Clone, Copy, Debug, PartialEq, Eq, Structural)]
pub enum DeleteStep {
    /// Nothing is bound to the set: remove it.
    Remove,
    /// Interrupt the bound agents, re-scan, then remove.
    InterruptFirst,
}

pub open spec fn msg_still_bound(name: Seq<char>, ids: Seq<Seq<char>>) -> Seq<char> {
    "set '"@ + name + "' is still bound by: "@ + join_names(ids) + "; pass force=true to interrupt and remove"@
}

pub open spec fn ref_ids(r: Seq<SetReference>) -> Seq<Seq<char>> {
    r.map_values(|x: SetReference| x.id@)
}

/// The removal gate, in order: an unknown set is `404`; the default set
/// and a set the root is bound to are `409`; a set with bindings needs
/// `force` (`409` listing the binders otherwise) and interrupts them
/// first.
pub fn delete_set_gate(
    config: &ProfileConfig,
    name: &String,
    refs: &Vec<SetReference>,
    root_bound: bool,
    force: Option<bool>,
) -> (r: Result<DeleteStep, ApiError>)
    ensures
        !set_names(config@.sets).contains(name@) ==> (r matches Err(e) && e.status == 404
            && e.message@ == "unknown set '"@ + name@ + "'"@),
        set_names(config@.sets).contains(name@) && name@ == config@.default ==> (r matches Err(e) && e.status == 409
            && e.message@ == "the default set cannot be deleted; transfer it first (PUT /profiles/default)"@),
        set_names(config@.sets).contains(name@) && name@ != config@.default && root_bound ==> (r matches Err(e)
            && e.status == 409
            && e.message@ == "the root agent is bound to this set; rebind it first (PUT /agents/{id}/profile-set)"@),
        set_names(config@.sets).contains(name@) && name@ != config@.default && !root_bound ==> {
            if refs@.len() == 0 {
                r == Ok::<DeleteStep, ApiError>(DeleteStep::Remove)
            } else if force != Some(true) {
                r matches Err(e) && e.status == 409 && e.message@ == msg_still_bound(name@, ref_ids(refs@))
            } else {
                r == Ok::<DeleteStep, ApiError>(DeleteStep::InterruptFirst)
            }
        },
{
    if !has_set(config, name) {
        return Err(ApiError::not_found(String::from_str("unknown set '").concat(name.as_str()).concat("'")));
    }
    if *name == config.default {
        return Err(ApiError::conflict(String::from_str(
            "the default set cannot be deleted; transfer it first (PUT /profiles/default)",
        )));
    }
    if root_bound {
        return Err(ApiError::conflict(String::from_str(
            "the root agent is bound to this set; rebind it first (PUT /agents/{id}/profile-set)",
        )));
    }
    if refs.len() == 0 {
        return Ok(DeleteStep::Remove);
    }
    if force != Some(true) {
        let mut ids: Vec<String> = Vec::new();
        let mut i: usize = 0;
        while i < refs.len()
            invariant
                i <= refs.len(),
                ids.deep_view() == ref_ids(refs@).take(i as int),
            decreases refs.len() - i,
        {
            let ghost pre = ids.deep_view();
            ids.push(refs[i].id.clone());
            proof {
                assert(ids.deep_view() =~= pre.push(refs@[i as int].id@));
                assert(ref_ids(refs@).take(i + 1) =~= ref_ids(refs@).take(i as int).push(refs@[i as int].id@));
            }
            i = i + 1;
        }
        proof { assert(ref_ids(refs@).take(i as int) =~= ref_ids(refs@)); }
        let joined = join_with_commas(&ids);
        return Err(ApiError::conflict(String::from_str("set '").concat(name.as_str()).concat("' is still bound by: ").concat(
            joined.as_str(),
        ).concat("; pass force=true to interrupt and remove")));
    }
    Ok(DeleteStep::InterruptFirst)
}

/// The post-interrupt re-scan: new bindings (or the root) on the set
/// refuse the removal (`409`); retry.
pub fn sweep_gate(interrupted: &Vec<SetReference>, recheck: &Vec<SetReference>, root_after: bool) -> (r: Result<(), ApiError>)
    ensures
        (r is Ok) <==> !(root_after || exists|j: int| 0 <= j < recheck@.len() && outside(interrupted@, #[trigger] recheck@[j])),
        r matches Err(e) ==> e.status == 409 && e.message@ == "new bindings arrived during the sweep; retry the delete"@,
{
    if references_grew(interrupted, recheck, root_after) {
        return Err(ApiError::conflict(String::from_str("new bindings arrived during the sweep; retry the delete")));
    }
    Ok(())
}

/// `sets` without the set named `name`.
pub open spec fn without_set(sets: Seq<SetV>, name: Seq<char>) -> Seq<SetV>
    decreases sets.len(),
{
    if sets.len() == 0 {
        Seq::empty()
    } else {
        let prev = without_set(sets.drop_last(), name);
        if sets.last().name != name { prev.push(sets.last()) } else { prev }
    }
}

/// Remove the set named `name`; everything else stays.
pub fn remove_set(config: &mut ProfileConfig, name: &String)
    ensures final(config)@ == (ConfigV { sets: without_set(old(config)@.sets, name@), ..old(config)@ }),
{
    let ghost sv = old(config)@.sets;
    let mut kept: Vec<ProfileSet> = Vec::new();
    let mut i: usize = 0;
    proof { assert(without_set(sv.take(0), name@) =~= Seq::<SetV>::empty()); }
    while i < config.sets.len()
        invariant
            sv == sets_view(config.sets@),
            config@ == old(config)@,
            i <= config.sets.len(),
            sets_view(kept@) == without_set(sv.take(i as int), name@),
        decreases config.sets.len() - i,
    {
        proof {
            assert(sv.take(i + 1).drop_last() =~= sv.take(i as int));
            assert(sv.take(i + 1).last() == config.sets@[i as int]@);
        }
        if config.sets[i].name != *name {
            let ghost pre = sets_view(kept@);
            kept.push(copy_set(&config.sets[i]));
            proof { assert(sets_view(kept@) =~= pre.push(config.sets@[i as int]@)); }
        }
        i = i + 1;
    }
    proof { assert(sv.take(i as int) =~= sv); }
    config.sets = kept;
}

// ---- apply ----

/// The set an agent's recorded binding resolves to: a known set as
/// recorded; an unbound record to the default; a dangling root binding
/// through the default; anything else does not resolve.
pub open spec fn resolve_spec(names: Seq<Seq<char>>, default: Seq<char>, recorded: Option<Seq<char>>, is_root: bool) -> Option<Seq<char>> {
    match recorded {
        Some(n) => if names.contains(n) {
            Some(n)
        } else if is_root && names.contains(default) {
            Some(default)
        } else {
            None
        },
        None => if names.contains(default) { Some(default) } else { None },
    }
}

/// Resolve one binding (see [`resolve_spec`]).
pub fn resolve_with_fallback(config: &ProfileConfig, recorded: &Option<String>, is_root: bool) -> (r: Option<String>)
    ensures
        opt_view(r) == resolve_spec(set_names(config@.sets), config@.default, opt_view(*recorded), is_root),
{
    match recorded {
        Some(n) => {
            if has_set(config, n) {
                Some(n.clone())
            } else if is_root && has_set(config, &config.default) {
                Some(config.default.clone())
            } else {
                None
            }
        },
        None => {
            if has_set(config, &config.default) {
                Some(config.default.clone())
            } else {
                None
            }
        },
    }
}

/// What a profile apply does: the live agents to signal with their set,
/// the unbound ones to rebind (in memory) to it, and how many entries
/// are skipped (faulted, or not resolving).
#[derive(Clone, Debug)]
pub struct ApplyPlan {
    pub targets: Vec<(String, String)>,
    pub rebinds: Vec<(String, String)>,
    pub skipped: usize,
}

/// The response of a profile apply.
#[derive(Clone, Copy, Debug, PartialEq, Eq, Structural)]
pub struct ApplyResponse {
    /// Live agents that received a pending-reset signal.
    pub applied: usize,
    /// Faulted entries and live agents whose set no longer resolves.
    pub skipped: usize,
}

pub open spec fn string_pairs(s: Seq<(String, String)>) -> Seq<(Seq<char>, Seq<char>)> {
    s.map_values(|p: (String, String)| (p.0@, p.1@))
}

/// The resolution of one listed entry: `None` when it is skipped.
pub open spec fn entry_target(names: Seq<Seq<char>>, default: Seq<char>, e: RegistryEntry) -> Option<Seq<char>> {
    match e {
        RegistryEntry::Faulted(_) => None,
        RegistryEntry::Live(x) => resolve_spec(names, default, opt_view(x.identity.config.profile_set), x.identity.config.created_by is None),
    }
}

pub open spec fn apply_targets(l: Seq<(String, RegistryEntry)>, names: Seq<Seq<char>>, default: Seq<char>) -> Seq<(Seq<char>, Seq<char>)>
    decreases l.len(),
{
    if l.len() == 0 {
        Seq::empty()
    } else {
        let prev = apply_targets(l.drop_last(), names, default);
        match entry_target(names, default, l.last().1) {
            Some(set) => prev.push((l.last().0@, set)),
            None => prev,
        }
    }
}

pub open spec fn apply_rebinds(l: Seq<(String, RegistryEntry)>, names: Seq<Seq<char>>, default: Seq<char>) -> Seq<(Seq<char>, Seq<char>)>
    decreases l.len(),
{
    if l.len() == 0 {
        Seq::empty()
    } else {
        let prev = apply_rebinds(l.drop_last(), names, default);
        match entry_target(names, default, l.last().1) {
            Some(set) => if binding_of(l.last().1) is None { prev.push((l.last().0@, set)) } else { prev },
            None => prev,
        }
    }
}

pub open spec fn apply_skipped(l: Seq<(String, RegistryEntry)>, names: Seq<Seq<char>>, default: Seq<char>) -> nat
    decreases l.len(),
{
    if l.len() == 0 {
        0
    } else {
        apply_skipped(l.drop_last(), names, default)
            + if entry_target(names, default, l.last().1) is None { 1nat } else { 0nat }
    }
}

/// Plan a profile apply over the registry: every live agent whose
/// binding resolves is signalled with its set; an unbound one is also
/// rebound to it; faulted and unresolvable entries are skipped.
pub fn plan_apply(registry: &AgentRegistry, config: &ProfileConfig) -> (p: ApplyPlan)
    ensures
        ({
            let l = registry.listing();
            let names = set_names(config@.sets);
            &&& string_pairs(p.targets@) == apply_targets(l, names, config@.default)
            &&& string_pairs(p.rebinds@) == apply_rebinds(l, names, config@.default)
            &&& p.skipped == apply_skipped(l, names, config@.default)
        }),
{
    let entries = registry.iter();
    let ghost l = registry.listing();
    let ghost names = set_names(config@.sets);
    let ghost d = config@.default;
    let mut targets: Vec<(String, String)> = Vec::new();
    let mut rebinds: Vec<(String, String)> = Vec::new();
    let mut skipped: usize = 0;
    let mut i: usize = 0;
    proof {
        assert(string_pairs(targets@) =~= apply_targets(l.take(0), names, d));
        assert(string_pairs(rebinds@) =~= apply_rebinds(l.take(0), names, d));
    }
    while i < entries.len()
        invariant
            entries@ == l,
            names == set_names(config@.sets),
            d == config@.default,
            i <= entries.len(),
            skipped <= i,
            string_pairs(targets@) == apply_targets(l.take(i as int), names, d),
            string_pairs(rebinds@) == apply_rebinds(l.take(i as int), names, d),
            skipped == apply_skipped(l.take(i as int), names, d),
        decreases entries.len() - i,
    {
        proof {
            assert(l.take(i + 1).drop_last() =~= l.take(i as int));
            assert(l.take(i + 1).last() == l[i as int]);
        }
        let (id, entry) = (&entries[i].0, &entries[i].1);
        match entry.as_live() {
            None => {
                skipped = skipped + 1;
            },
            Some(live) => {
                let cfg = &live.identity.config;
                match resolve_with_fallback(config, &cfg.profile_set, cfg.created_by.is_none()) {
                    None => {
                        skipped = skipped + 1;
                    },
                    Some(set) => {
                        let ghost pt = string_pairs(targets@);
                        targets.push((id.clone(), set.clone()));
                        proof { assert(string_pairs(targets@) =~= pt.push((id@, set@))); }
                        if cfg.profile_set.is_none() {
                            let ghost pr = string_pairs(rebinds@);
                            rebinds.push((id.clone(), set));
                            proof { assert(string_pairs(rebinds@) =~= pr.push((id@, set@))); }
                        }
                    },
                }
            },
        }
        i = i + 1;
    }
    proof { assert(l.take(i as int) =~= l); }
    ApplyPlan { targets, rebinds, skipped }
}

/// The set the last rebind naming `id` carries, if any.
pub open spec fn rebind_for(s: Seq<(Seq<char>, Seq<char>)>, id: Seq<char>) -> Option<Seq<char>>
    decreases s.len(),
{
    if s.len() == 0 {
        None
    } else if s.last().0 == id {
        Some(s.last().1)
    } else {
        rebind_for(s.drop_last(), id)
    }
}

/// `new` is `old` rebound to `set`: a live entry with only its recorded
/// binding changed; a faulted entry (or no rebind) untouched.
pub open spec fn rebound_as(new: RegistryEntry, old: RegistryEntry, set: Option<Seq<char>>) -> bool {
    match set {
        None => new == old,
        Some(s) => if old is Live {
            &&& new == crate::registry::with_config(
                old, crate::config::AgentConfig { profile_set: new.ident().config.profile_set, ..old.ident().config })
            &&& opt_view(new.ident().config.profile_set) == Some(s)
        } else {
            new == old
        },
    }
}

/// Write the derived bindings of an apply back to the in-memory records
/// of the live agents they name (never to disk).
pub fn rebind_unbound(registry: &mut AgentRegistry, rebinds: &Vec<(String, String)>)
    requires old(registry).wf(),
    ensures
        final(registry).wf(),
        final(registry).tokens() == old(registry).tokens(),
        final(registry).map().dom() == old(registry).map().dom(),
        forall|k: Seq<char>| #[trigger] final(registry).map().contains_key(k)
            && !string_pairs(rebinds@).map_values(|p: (Seq<char>, Seq<char>)| p.0).contains(k)
            ==> final(registry).map()[k] == old(registry).map()[k],
        forall|k: Seq<char>| #[trigger] final(registry).map().contains_key(k) ==> rebound_as(
            final(registry).map()[k], old(registry).map()[k], rebind_for(string_pairs(rebinds@), k)),
{
    let mut i: usize = 0;
    while i < rebinds.len()
        invariant
            i <= rebinds.len(),
            registry.wf(),
            registry.tokens() == old(registry).tokens(),
            registry.map().dom() == old(registry).map().dom(),
            forall|k: Seq<char>| #[trigger] registry.map().contains_key(k)
                && !string_pairs(rebinds@).take(i as int).map_values(|p: (Seq<char>, Seq<char>)| p.0).contains(k)
                ==> registry.map()[k] == old(registry).map()[k],
            forall|k: Seq<char>| #[trigger] registry.map().contains_key(k) ==> rebound_as(
                registry.map()[k], old(registry).map()[k], rebind_for(string_pairs(rebinds@).take(i as int), k)),
        decreases rebinds.len() - i,
    {
        let (id, set) = (&rebinds[i].0, &rebinds[i].1);
        let ghost before = registry.map();
        let cfg = match registry.get(id) {
            Some(e) => match e.as_live() {
                Some(live) => {
                    let mut c = live.identity.config.copy();
                    c.profile_set = Some(set.clone());
                    Some(c)
                },
                None => None,
            },
            None => None,
        };
        match cfg {
            Some(c) => {
                registry.set_config(id, c);
                proof { assert(registry.map().dom() =~= before.dom()); }
            },
            None => {},
        }
        proof {
            let ks = string_pairs(rebinds@).take(i + 1).map_values(|p: (Seq<char>, Seq<char>)| p.0);
            let ks0 = string_pairs(rebinds@).take(i as int).map_values(|p: (Seq<char>, Seq<char>)| p.0);
            assert(ks =~= ks0.push(id@));
            let sp = string_pairs(rebinds@);
            assert(sp.take(i + 1).drop_last() =~= sp.take(i as int));
            assert(sp.take(i + 1).last() == (id@, set@));
            assert forall|k: Seq<char>| #[trigger] registry.map().contains_key(k) implies rebound_as(
                registry.map()[k], old(registry).map()[k], rebind_for(sp.take(i + 1), k)) by {
                assert(before.contains_key(k));
                if k != id@ {
                    assert(registry.map()[k] == before[k]);
                } else if before[k] is Live {
                    assert(old(registry).map()[k] is Live);
                }
            }
            assert forall|k: Seq<char>| #[trigger] registry.map().contains_key(k) && !ks.contains(k)
                implies registry.map()[k] == old(registry).map()[k] by {
                assert(ks[i as int] == id@);
                assert(k != id@);
                if ks0.contains(k) {
                    let j = choose|j: int| 0 <= j < ks0.len() && ks0[j] == k;
                    assert(ks[j] == k);
                }
                assert(before.contains_key(k));
                assert(registry.map()[k] == before[k]);
            }
        }
        i = i + 1;
    }
    proof {
        assert(string_pairs(rebinds@).take(i as int) =~= string_pairs(rebinds@));
    }
}

// ---- laws ----

/// Round-trip safety: echoing back the masked form of a live key keeps
/// the live key, and so does a null key.
pub proof fn law_masked_echo_keeps_key(live: Seq<(Seq<char>, ProviderV)>, key: Seq<char>, p: PatchV)
    requires
        p.id == key,
        endpoint_of(live, key) matches Some(e) && e.api_key.len() > 0,
        p.api_key == Some(masked(endpoint_of(live, key)->Some_0.api_key)) || p.api_key is None,
    ensures
        endpoint_step(live, key, p) matches Ok(x) && x.api_key == endpoint_of(live, key)->Some_0.api_key,
{
}

proof fn lemma_merged_endpoints_rows(live: Seq<(Seq<char>, ProviderV)>, wire: Seq<(Seq<char>, PatchV)>)
    ensures
        merged_endpoints(live, wire) matches Ok(e) ==> e.len() == wire.len()
            && forall|j: int| 0 <= j < wire.len() ==> (#[trigger] e[j]).0 == wire[j].0
                && endpoint_step(live, wire[j].0, wire[j].1) == Ok::<ProviderV, Seq<char>>(e[j].1),
    decreases wire.len(),
{
    if wire.len() > 0 {
        lemma_merged_endpoints_rows(live, wire.drop_last());
        if let Ok(e) = merged_endpoints(live, wire) {
            let done = merged_endpoints(live, wire.drop_last())->Ok_0;
            assert(e == done.push((wire.last().0, endpoint_step(live, wire.last().0, wire.last().1)->Ok_0)));
            assert forall|j: int| 0 <= j < wire.len() implies (#[trigger] e[j]).0 == wire[j].0
                && endpoint_step(live, wire[j].0, wire[j].1) == Ok::<ProviderV, Seq<char>>(e[j].1) by {
                if j < wire.len() - 1 {
                    assert(e[j] == done[j]);
                    assert(wire.drop_last()[j] == wire[j]);
                }
            }
        }
    }
}

/// Round-trip safety of a whole write: in a config `PUT` that echoes back
/// an endpoint's masked key as `GET` showed it (or sends no key), the
/// merged endpoint keeps the live key.
pub proof fn law_merge_keeps_echoed_key(
    live: ConfigV,
    eps: Seq<(Seq<char>, PatchV)>,
    wire_sets: Seq<SetV>,
    default: Option<Seq<char>>,
    parking: Option<Seq<ProfileV>>,
    j: int,
)
    requires
        0 <= j < eps.len(),
        eps[j].1.id == eps[j].0,
        endpoint_of(live.endpoints, eps[j].0) matches Some(e) && e.api_key.len() > 0,
        eps[j].1.api_key == Some(masked(endpoint_of(live.endpoints, eps[j].0)->Some_0.api_key))
            || eps[j].1.api_key is None,
    ensures
        merge_spec(live, eps, wire_sets, default, parking) matches Ok(c) ==> c.endpoints[j].0 == eps[j].0
            && c.endpoints[j].1.api_key == endpoint_of(live.endpoints, eps[j].0)->Some_0.api_key,
{
    lemma_merged_endpoints_rows(live.endpoints, eps);
    law_masked_echo_keeps_key(live.endpoints, eps[j].0, eps[j].1);
}

/// Every endpoint has a key and every set is known after a merge:
/// merged endpoints never carry an empty key when the live ones do not.
pub proof fn law_merged_keys_nonempty(live: Seq<(Seq<char>, ProviderV)>, wire: Seq<(Seq<char>, PatchV)>)
    requires
        forall|i: int| 0 <= i < live.len() ==> (#[trigger] live[i]).1.api_key.len() > 0,
    ensures
        merged_endpoints(live, wire) matches Ok(e) ==> forall|i: int| 0 <= i < e.len() ==> (#[trigger] e[i]).1.api_key.len() > 0,
    decreases wire.len(),
{
    if wire.len() > 0 {
        law_merged_keys_nonempty(live, wire.drop_last());
        lemma_endpoint_of_in(live, wire.last().0);
    }
}

proof fn lemma_endpoint_of_in(live: Seq<(Seq<char>, ProviderV)>, key: Seq<char>)
    ensures endpoint_of(live, key) matches Some(e) ==> exists|i: int| 0 <= i < live.len() && #[trigger] live[i].1 == e,
    decreases live.len(),
{
    if live.len() > 0 {
        lemma_endpoint_of_in(live.drop_last(), key);
        if let Some(e) = endpoint_of(live.drop_last(), key) {
            let i = choose|i: int| 0 <= i < live.drop_last().len() && #[trigger] live.drop_last()[i].1 == e;
            assert(live[i].1 == e);
        } else if live.last().0 == key {
            assert(live[live.len() - 1].1 == live.last().1);
        }
    }
}

/// A merged config's sets are sorted by name with no name twice, and
/// its default marker names one of them (or is empty with no sets).
pub proof fn law_merged_sets_well_formed(
    live: ConfigV,
    eps: Seq<(Seq<char>, PatchV)>,
    wire_sets: Seq<SetV>,
    default: Option<Seq<char>>,
    parking: Option<Seq<ProfileV>>,
)
    requires
        merge_spec(live, eps, wire_sets, default, parking) is Ok,
        exists|r: Seq<SetV>| sorted_sets_of(r, wire_sets),
    ensures
        ({
            let c = merge_spec(live, eps, wire_sets, default, parking)->Ok_0;
            &&& sorted_strict(set_names(c.sets))
            &&& set_names(c.sets).contains(c.default) || (c.sets.len() == 0 && c.default.len() == 0)
        }),
{
}

/// Removing a set drops exactly that name and keeps every other set.
pub proof fn law_remove_set(sets: Seq<SetV>, name: Seq<char>)
    ensures
        !set_names(without_set(sets, name)).contains(name),
        forall|x: SetV| sets.contains(x) && x.name != name ==> without_set(sets, name).contains(x),
        forall|x: SetV| without_set(sets, name).contains(x) ==> sets.contains(x),
    decreases sets.len(),
{
    if sets.len() > 0 {
        law_remove_set(sets.drop_last(), name);
        let prev = without_set(sets.drop_last(), name);
        let cur = without_set(sets, name);
        assert forall|x: SetV| sets.contains(x) && x.name != name implies cur.contains(x) by {
            let i = choose|i: int| 0 <= i < sets.len() && sets[i] == x;
            if i < sets.len() - 1 {
                assert(sets.drop_last()[i] == x);
                assert(sets.drop_last().contains(x));
                let j = choose|j: int| 0 <= j < prev.len() && prev[j] == x;
                if sets.last().name != name { assert(cur[j] == x); }
            } else {
                assert(cur[cur.len() - 1] == x);
            }
        }
        if sets.last().name != name {
            assert(cur == prev.push(sets.last()));
        } else {
            assert(cur == prev);
        }
        assert forall|x: SetV| cur.contains(x) implies sets.contains(x) by {
            let j = choose|j: int| 0 <= j < cur.len() && cur[j] == x;
            if j < prev.len() {
                assert(prev[j] == x);
                assert(prev.contains(x));
                assert(sets.drop_last().contains(x));
                let i = choose|i: int| 0 <= i < sets.drop_last().len() && sets.drop_last()[i] == x;
                assert(sets[i] == x);
            } else {
                assert(sets[sets.len() - 1] == x);
            }
        }
        if set_names(cur).contains(name) {
            let j = choose|j: int| 0 <= j < set_names(cur).len() && set_names(cur)[j] == name;
            if j < prev.len() {
                assert(set_names(prev)[j] == name);
            }
        }
    }
}

/// An apply accounts for every registry entry: each is either signalled
/// or skipped.
pub proof fn law_apply_accounts_for_all(l: Seq<(String, RegistryEntry)>, names: Seq<Seq<char>>, default: Seq<char>)
    ensures apply_targets(l, names, default).len() + apply_skipped(l, names, default) == l.len(),
    decreases l.len(),
{
    if l.len() > 0 {
        law_apply_accounts_for_all(l.drop_last(), names, default);
    }
}

} // verus!
