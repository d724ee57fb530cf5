//! Releases: what they change, in which steps, and how far a release has come.
use vstd::prelude::*;
use crate::agent_rt::error::{AgentRtError, ErrorV};
use crate::agent_rt::mcp_jsonrpc;
use crate::agent_rt::mcp_jsonrpc::optional_member;
use crate::agent_rt::types;
use crate::agent_rt::wire;
use crate::agent_rt::wire::{make_variant, read_variant};
use crate::json;
use crate::json::{Json, JsonV, NumV, ObjectBuilder};
use crate::util::assoc::{AssocMap, MapKey};
use crate::util::text;
use crate::util::text::{concat2, str_eq, u64_to_text};

verus! {

/// The latest version of the form of a manifest.
pub const MAX_SCHEMA_VERSION: u32 = 1;

/// The name of the file that says how far a release has come.
pub const IN_PROGRESS_FILENAME: &'static str = ".in_progress.json";

/// A behavior that goes over to another version.
#[derive(Debug, PartialEq, Eq)]
pub struct BehaviorUpgrade {
    pub name: String,
    pub version: String,
    pub upgrade_from: String,
    pub extra: Json,
}

/// What the change of a behavior is.
pub struct UpgradeV {
    pub name: Seq<char>,
    pub version: Seq<char>,
    pub upgrade_from: Seq<char>,
    pub extra: JsonV,
}

impl View for BehaviorUpgrade {
    type V = UpgradeV;

    open spec fn view(&self) -> UpgradeV {
        UpgradeV {
            name: self.name@,
            version: self.version@,
            upgrade_from: self.upgrade_from@,
            extra: self.extra@,
        }
    }
}

/// What a release changes.
pub struct ReleaseManifest {
    pub schema_version: u32,
    pub version: String,
    pub previous: Option<String>,
    pub behaviors: Vec<BehaviorUpgrade>,
    pub config_changes: AssocMap<String, Json>,
}

/// What a manifest is.
#[verifier::ext_equal]
pub struct ManifestV {
    pub schema_version: u32,
    pub version: Seq<char>,
    pub previous: Option<Seq<char>>,
    pub behaviors: Seq<UpgradeV>,
    pub config_changes: Map<Seq<char>, JsonV>,
}

/// What the changes of behaviors are.
pub open spec fn upgrades_view(s: Seq<BehaviorUpgrade>) -> Seq<UpgradeV> {
    s.map_values(|b: BehaviorUpgrade| b@)
}

/// What values under names are.
pub open spec fn values_view(m: Map<Seq<char>, Json>) -> Map<Seq<char>, JsonV> {
    m.map_values(|j: Json| j@)
}

impl View for ReleaseManifest {
    type V = ManifestV;

    open spec fn view(&self) -> ManifestV {
        ManifestV {
            schema_version: self.schema_version,
            version: self.version@,
            previous: types::opt_str(self.previous),
            behaviors: upgrades_view(self.behaviors@),
            config_changes: values_view(self.config_changes@),
        }
    }
}

/// One step of a release.
#[derive(Debug, PartialEq, Eq)]
pub enum ReleaseStep {
    UpgradeBehavior { name: String, from: String, to: String, extra: Json },
    ApplyConfig { key: String, old_value: Json, new_value: Json },
}

/// What a step is.
pub enum StepV {
    UpgradeBehavior { name: Seq<char>, from: Seq<char>, to: Seq<char>, extra: JsonV },
    ApplyConfig { key: Seq<char>, old_value: JsonV, new_value: JsonV },
}

impl View for ReleaseStep {
    type V = StepV;

    open spec fn view(&self) -> StepV {
        match self {
            ReleaseStep::UpgradeBehavior { name, from, to, extra } => StepV::UpgradeBehavior {
                name: name@,
                from: from@,
                to: to@,
                extra: extra@,
            },
            ReleaseStep::ApplyConfig { key, old_value, new_value } => StepV::ApplyConfig {
                key: key@,
                old_value: old_value@,
                new_value: new_value@,
            },
        }
    }
}

/// The steps of a release.
#[derive(Debug, PartialEq, Eq)]
pub struct ReleasePlan {
    pub steps: Vec<ReleaseStep>,
}

impl View for ReleasePlan {
    type V = Seq<StepV>;

    open spec fn view(&self) -> Seq<StepV> {
        steps_view(self.steps@)
    }
}

/// What steps are.
pub open spec fn steps_view(s: Seq<ReleaseStep>) -> Seq<StepV> {
    s.map_values(|t: ReleaseStep| t@)
}

/// How far a release has come.
#[derive(Debug, PartialEq, Eq)]
pub struct InProgressRelease {
    pub schema_version: u32,
    pub manifest_version: String,
    pub plan: ReleasePlan,
    pub completed_steps: usize,
}

/// What the progress of a release is.
pub struct ProgressV {
    pub schema_version: u32,
    pub manifest_version: Seq<char>,
    pub plan: Seq<StepV>,
    pub completed_steps: nat,
}

impl View for InProgressRelease {
    type V = ProgressV;

    open spec fn view(&self) -> ProgressV {
        ProgressV {
            schema_version: self.schema_version,
            manifest_version: self.manifest_version@,
            plan: self.plan@,
            completed_steps: self.completed_steps as nat,
        }
    }
}

// ---------------------------------------------------------------------------
// Reading a manifest
// ---------------------------------------------------------------------------
/// What is said of a value that is not what it should be.
pub const BAD_MEMBER: &'static str = "a member is missing or has the wrong type";

/// The names of the members of a change of a behavior; the last one need not be there.
pub open spec fn upgrade_names() -> Seq<Seq<char>> {
    seq!["name"@, "version"@, "upgrade_from"@, "extra"@]
}

/// The names of the members of a manifest; the last one need not be there.
pub open spec fn manifest_names() -> Seq<Seq<char>> {
    seq!["schema_version"@, "version"@, "previous"@, "behaviors"@, "config_changes"@]
}

/// The names of the members of a change of a behavior, as a step.
pub open spec fn change_names() -> Seq<Seq<char>> {
    seq!["name"@, "from"@, "to"@, "extra"@]
}

/// The names of the members of a new setting, as a step.
pub open spec fn setting_names() -> Seq<Seq<char>> {
    seq!["key"@, "old_value"@, "new_value"@]
}

/// The names of the members of a plan.
pub open spec fn plan_names() -> Seq<Seq<char>> {
    seq!["steps"@]
}

/// The names of the members of the progress of a release.
pub open spec fn progress_names() -> Seq<Seq<char>> {
    seq!["schema_version"@, "manifest_version"@, "plan"@, "completed_steps"@]
}

/// The change of a behavior in a JSON value.
pub open spec fn upgrade_of(value: JsonV) -> Option<UpgradeV> {
    let v = json::record(value, upgrade_names(), 3);
    match (v.get_text("name"@), v.get_text("version"@), v.get_text("upgrade_from"@)) {
        (Some(name), Some(version), Some(upgrade_from)) => Some(
            UpgradeV {
                name,
                version,
                upgrade_from,
                extra: match v.get("extra"@) {
                    Some(e) => e,
                    None => JsonV::Null,
                },
            },
        ),
        _ => None,
    }
}

/// The changes of behaviors in JSON values, where all of them are such.
pub open spec fn upgrades_of(a: Seq<JsonV>) -> Option<Seq<UpgradeV>>
    decreases a.len(),
{
    if a.len() == 0 {
        Some(Seq::empty())
    } else {
        match (upgrades_of(a.drop_last()), upgrade_of(a.last())) {
            (Some(s), Some(u)) => Some(s.push(u)),
            _ => None,
        }
    }
}

/// The values of members under their names; of two members with one name the last counts.
pub open spec fn members_map(s: Seq<(Seq<char>, JsonV)>) -> Map<Seq<char>, JsonV>
    decreases s.len(),
{
    if s.len() == 0 {
        Map::empty()
    } else {
        members_map(s.drop_last()).insert(s.last().0, s.last().1)
    }
}

/// A number that fits 32 bits.
pub open spec fn small_number(v: JsonV, k: Seq<char>) -> Option<u32> {
    match v.get_unsigned(k) {
        Some(n) => if n <= u32::MAX {
            Some(n as u32)
        } else {
            None
        },
        None => None,
    }
}

fn get_u32(v: &Json, k: &str) -> (r: Option<u32>)
    ensures
        r == small_number(v@, k@),
{
    match v.get_u64(k) {
        Some(n) => if n <= 0xffff_ffff {
            Some(n as u32)
        } else {
            None
        },
        None => None,
    }
}

/// The changes of the configuration in a manifest: none where they are missing.
pub open spec fn changes_of(v: JsonV) -> Option<Map<Seq<char>, JsonV>> {
    match v.get("config_changes"@) {
        None => Some(Map::empty()),
        Some(JsonV::Object(m)) => Some(members_map(m)),
        Some(_) => None,
    }
}

/// The version before, in a manifest: none where it is missing or null.
pub open spec fn previous_of(v: JsonV) -> Option<Option<Seq<char>>> {
    match mcp_jsonrpc::member_or_none(v, "previous"@) {
        None => Some(None),
        Some(JsonV::Str(s)) => Some(Some(s)),
        Some(_) => None,
    }
}

/// The manifest in a JSON value.
pub open spec fn manifest_of(value: JsonV) -> Option<ManifestV> {
    let v = json::record(value, manifest_names(), 4);
    match (
        small_number(v, "schema_version"@),
        v.get_text("version"@),
        previous_of(v),
        match v.get("behaviors"@) {
            Some(JsonV::Array(a)) => upgrades_of(a),
            _ => None,
        },
        changes_of(v),
    ) {
        (Some(schema_version), Some(version), Some(previous), Some(behaviors), Some(
            config_changes,
        )) => Some(
            ManifestV { schema_version, version, previous, behaviors, config_changes },
        ),
        _ => None,
    }
}

/// The manifest that was read, or what is wrong with it.
pub open spec fn manifest_in(parsed: Result<JsonV, Seq<char>>) -> Result<ManifestV, ErrorV> {
    match parsed {
        Err(e) => Err(ErrorV::Release("invalid manifest: "@ + e)),
        Ok(v) => match manifest_of(v) {
            None => Err(ErrorV::Release("invalid manifest: "@ + BAD_MEMBER@)),
            Some(m) => if m.schema_version > MAX_SCHEMA_VERSION {
                Err(
                    ErrorV::Release(
                        "schema version "@ + text::decimal(m.schema_version as nat)
                            + " not supported, max supported: "@ + text::decimal(
                            MAX_SCHEMA_VERSION as nat,
                        ),
                    ),
                )
            } else {
                Ok(m)
            },
        },
    }
}

/// What reading gave.
pub open spec fn manifest_view(r: Result<ReleaseManifest, AgentRtError>) -> Result<
    ManifestV,
    ErrorV,
> {
    match r {
        Ok(m) => Ok(m@),
        Err(e) => Err(e@),
    }
}

fn read_upgrade(v: &Json) -> (r: Option<BehaviorUpgrade>)
    ensures
        (match r {
            Some(u) => Some(u@),
            None => None,
        }) == upgrade_of(v@),
{
    let names: Vec<&str> = vec!["name", "version", "upgrade_from", "extra"];
    assert(json::names_view(names@) =~= upgrade_names());
    let v: Json = v.as_record(&names, 3);
    let name: String = v.get_str("name")?.clone();
    let version: String = v.get_str("version")?.clone();
    let upgrade_from: String = v.get_str("upgrade_from")?.clone();
    let extra: Json = match v.get("extra") {
        Some(e) => e.dup(),
        None => Json::Null,
    };
    Some(BehaviorUpgrade { name, version, upgrade_from, extra })
}

/// Where one element is no change of a behavior, the whole list is none.
proof fn lemma_upgrades_none(a: Seq<JsonV>, i: int)
    requires
        0 <= i < a.len(),
        upgrade_of(a[i]) is None,
    ensures
        upgrades_of(a) is None,
    decreases a.len(),
{
    if i < a.len() - 1 {
        lemma_upgrades_none(a.drop_last(), i);
    }
}

fn read_upgrades(a: &Vec<Json>) -> (r: Option<Vec<BehaviorUpgrade>>)
    ensures
        (match r {
            Some(s) => Some(upgrades_view(s@)),
            None => None,
        }) == upgrades_of(json::array_view(a@)),
{
    let ghost all = json::array_view(a@);
    let mut out: Vec<BehaviorUpgrade> = Vec::new();
    let mut i: usize = 0;
    assert(all.take(0) =~= Seq::<JsonV>::empty());
    assert(upgrades_view(out@) =~= Seq::<UpgradeV>::empty());
    while i < a.len()
        invariant
            i <= a@.len(),
            all == json::array_view(a@),
            upgrades_of(all.take(i as int)) == Some(upgrades_view(out@)),
        decreases a@.len() - i,
    {
        assert(all.take(i + 1).drop_last() =~= all.take(i as int));
        assert(all[i as int] == a@[i as int]@);
        match read_upgrade(&a[i]) {
            Some(u) => {
                let ghost before = out@;
                out.push(u);
                assert(upgrades_view(out@) =~= upgrades_view(before).push(u@));
            },
            None => {
                proof {
                    lemma_upgrades_none(all, i as int);
                }
                return None;
            },
        }
        i += 1;
    }
    assert(all.take(i as int) =~= all);
    Some(out)
}

fn read_changes(v: &Json) -> (r: Option<AssocMap<String, Json>>)
    ensures
        (match r {
            Some(m) => Some(values_view(m@)),
            None => None,
        }) == changes_of(v@),
{
    let mut out: AssocMap<String, Json> = AssocMap::new();
    assert(values_view(out@) =~= Map::empty());
    match v.get("config_changes") {
        None => Some(out),
        Some(Json::Object(m)) => {
            proof {
                json::lemma_object_tree(*m);
            }
            let ghost all = json::members_view(m@);
            let mut i: usize = 0;
            assert(all.take(0) =~= Seq::<(Seq<char>, JsonV)>::empty());
            while i < m.len()
                invariant
                    i <= m@.len(),
                    all == json::members_view(m@),
                    values_view(out@) == members_map(all.take(i as int)),
                decreases m@.len() - i,
            {
                let ghost before = out@;
                assert(all.take(i + 1).drop_last() =~= all.take(i as int));
                let e = &m[i];
                assert(all[i as int] == (e.0@, e.1@));
                let value: Json = e.1.dup();
                out.insert(e.0.clone(), value);
                assert(values_view(out@) =~= values_view(before).insert(e.0@, value@));
                i += 1;
            }
            assert(all.take(i as int) =~= all);
            Some(out)
        },
        Some(_) => None,
    }
}

fn read_previous(v: &Json) -> (r: Option<Option<String>>)
    ensures
        (match r {
            Some(p) => Some(types::opt_str(p)),
            None => None,
        }) == previous_of(v@),
{
    match optional_member(v, "previous") {
        None => Some(None),
        Some(Json::Str(s)) => Some(Some(s)),
        Some(_) => None,
    }
}

fn read_manifest(v: &Json) -> (r: Option<ReleaseManifest>)
    ensures
        (match r {
            Some(m) => Some(m@),
            None => None,
        }) == manifest_of(v@),
{
    let names: Vec<&str> = vec![
        "schema_version",
        "version",
        "previous",
        "behaviors",
        "config_changes",
    ];
    assert(json::names_view(names@) =~= manifest_names());
    let v: Json = v.as_record(&names, 4);
    let schema_version: u32 = get_u32(&v, "schema_version")?;
    let version: String = v.get_str("version")?.clone();
    let previous: Option<String> = read_previous(&v)?;
    let behaviors: Vec<BehaviorUpgrade> = match v.get("behaviors") {
        Some(Json::Array(a)) => {
            proof {
                json::lemma_array_tree(*a);
            }
            read_upgrades(a)?
        },
        _ => {
            return None;
        },
    };
    let config_changes: AssocMap<String, Json> = read_changes(&v)?;
    Some(ReleaseManifest { schema_version, version, previous, behaviors, config_changes })
}

impl ReleaseManifest {
    /// The manifest that was read, or what is wrong with it.
    pub fn from_value(parsed: Result<Json, String>) -> (r: Result<Self, AgentRtError>)
        ensures
            manifest_view(r) == manifest_in(json::parse_view(parsed)),
    {
        let v: Json = match parsed {
            Ok(v) => v,
            Err(e) => {
                return Err(AgentRtError::Release(concat2("invalid manifest: ", e.as_str())));
            },
        };
        let m: ReleaseManifest = match read_manifest(&v) {
            Some(m) => m,
            None => {
                return Err(AgentRtError::Release(concat2("invalid manifest: ", BAD_MEMBER)));
            },
        };
        if m.schema_version > MAX_SCHEMA_VERSION {
            let n: String = u64_to_text(m.schema_version as u64);
            let mut t: String = concat2("schema version ", n.as_str());
            t.append(" not supported, max supported: ");
            let most: String = u64_to_text(MAX_SCHEMA_VERSION as u64);
            t.append(most.as_str());
            return Err(AgentRtError::Release(t));
        }
        Ok(m)
    }

    /// Reads a manifest from its text.
    pub fn from_json(text: &str) -> (r: Result<Self, AgentRtError>)
        ensures
            manifest_view(r) == manifest_in(json::json_parsed(text@)),
    {
        Self::from_value(Json::parse(text))
    }
}

// ---------------------------------------------------------------------------
// Plans
// ---------------------------------------------------------------------------
/// The step that changes a behavior.
pub open spec fn upgrade_step(u: UpgradeV) -> StepV {
    StepV::UpgradeBehavior { name: u.name, from: u.upgrade_from, to: u.version, extra: u.extra }
}

/// The step that changes a setting, which remembers what it was.
pub open spec fn config_step(changes: Map<Seq<char>, JsonV>, current: JsonV, k: Seq<char>) -> StepV {
    StepV::ApplyConfig {
        key: k,
        old_value: match current.get(k) {
            Some(v) => v,
            None => JsonV::Null,
        },
        new_value: changes[k],
    }
}

/// A list names every setting that changes once.
pub open spec fn each_key(keys: Seq<Seq<char>>, changes: Map<Seq<char>, JsonV>) -> bool {
    &&& keys.no_duplicates()
    &&& forall|k: Seq<char>| #[trigger] keys.contains(k) <==> changes.dom().contains(k)
}

/// The steps of a release: first the behaviors, in order, then every setting that changes.
pub open spec fn plan_of(m: ManifestV, current: JsonV, keys: Seq<Seq<char>>) -> Seq<StepV> {
    m.behaviors.map_values(|u: UpgradeV| upgrade_step(u)) + keys.map_values(
        |k: Seq<char>| config_step(m.config_changes, current, k),
    )
}

impl ReleasePlan {
    /// The steps of a release, with what each setting is now.
    pub fn from_manifest(manifest: &ReleaseManifest, current_config: &Json) -> (r: Self)
        ensures
            exists|keys: Seq<Seq<char>>| #[trigger]
                each_key(keys, manifest@.config_changes) && r@ == plan_of(
                    manifest@,
                    current_config@,
                    keys,
                ),
    {
        let mut steps: Vec<ReleaseStep> = Vec::new();
        let ghost first = manifest@.behaviors.map_values(|u: UpgradeV| upgrade_step(u));
        let mut i: usize = 0;
        while i < manifest.behaviors.len()
            invariant
                i <= manifest.behaviors@.len(),
                steps@.len() == i,
                first == manifest@.behaviors.map_values(|u: UpgradeV| upgrade_step(u)),
                forall|j: int| 0 <= j < i ==> (#[trigger] steps@[j])@ == first[j],
            decreases manifest.behaviors@.len() - i,
        {
            let b = &manifest.behaviors[i];
            assert(manifest@.behaviors[i as int] == b@);
            steps.push(
                ReleaseStep::UpgradeBehavior {
                    name: b.name.clone(),
                    from: b.upgrade_from.clone(),
                    to: b.version.clone(),
                    extra: b.extra.dup(),
                },
            );
            i += 1;
        }
        assert(steps_view(steps@) =~= first);
        manifest.config_changes.facts();
        let ghost changes = manifest@.config_changes;
        let ghost ord = manifest.config_changes.order();
        let ghost keys = Seq::new(ord.len(), |j: int| ord[j].0@);
        let ghost second = keys.map_values(
            |k: Seq<char>| config_step(changes, current_config@, k),
        );
        let n: usize = manifest.config_changes.len();
        let mut k: usize = 0;
        while k < n
            invariant
                k <= n,
                n == ord.len(),
                ord == manifest.config_changes.order(),
                changes == manifest@.config_changes,
                keys == Seq::new(ord.len(), |j: int| ord[j].0@),
                second == keys.map_values(
                    |k: Seq<char>| config_step(changes, current_config@, k),
                ),
                steps_view(steps@) == first + second.take(k as int),
            decreases n - k,
        {
            let (key, value) = manifest.config_changes.entry(k);
            let old_value: Json = match current_config.get(key.as_str()) {
                Some(v) => v.dup(),
                None => Json::Null,
            };
            let step = ReleaseStep::ApplyConfig {
                key: key.clone(),
                old_value,
                new_value: value.dup(),
            };
            let ghost before = steps@;
            proof {
                assert(keys[k as int] == key@);
                assert(changes[key@] == value@);
                assert(step@ == second[k as int]);
            }
            let ghost shown = step@;
            steps.push(step);
            proof {
                assert(steps_view(steps@) =~= steps_view(before).push(shown));
                assert(second.take(k + 1) =~= second.take(k as int).push(shown));
                assert(steps_view(steps@) =~= first + second.take(k + 1));
            }
            k += 1;
        }
        proof {
            assert(second.take(k as int) =~= second);
            assert(keys.no_duplicates()) by {
                assert forall|a: int, b: int|
                    0 <= a < keys.len() && 0 <= b < keys.len() && a != b implies keys[a]
                    != keys[b] by {
                    assert(ord[a].0.id() != ord[b].0.id());
                }
            }
            assert forall|q: Seq<char>| #[trigger] keys.contains(q) <==> changes.dom().contains(q) by {
                if keys.contains(q) {
                    let j = choose|j: int| 0 <= j < keys.len() && keys[j] == q;
                    assert(manifest.config_changes@.dom().contains(ord[j].0.id()));
                }
                if changes.dom().contains(q) {
                    assert(manifest.config_changes@.dom().contains(q));
                    let j = choose|j: int| 0 <= j < ord.len() && (#[trigger] ord[j]).0.id() == q;
                    assert(keys[j] == q);
                }
            }
            assert(each_key(keys, changes));
        }
        ReleasePlan { steps }
    }
}

// ---------------------------------------------------------------------------
// Releases so far
// ---------------------------------------------------------------------------
/// The release that runs, and those before it.
pub struct ReleaseManager {
    pub current: Option<ReleaseManifest>,
    pub history: Vec<ReleaseManifest>,
    pub max_history: usize,
}

/// The history after one more release: the oldest leaves where there are too many.
pub open spec fn history_after<T>(history: Seq<T>, current: Option<T>, max: usize) -> Seq<T> {
    match current {
        None => history,
        Some(m) => {
            let h = history.push(m);
            if h.len() > max {
                h.drop_first()
            } else {
                h
            }
        },
    }
}

impl ReleaseManager {
    /// No release yet.
    pub fn new(max_history: usize) -> (r: Self)
        ensures
            r.current is None,
            r.history@ == Seq::<ReleaseManifest>::empty(),
            r.max_history == max_history,
    {
        ReleaseManager { current: None, history: Vec::new(), max_history }
    }

    /// A release has been made. The one before it goes into the history.
    pub fn record_apply(&mut self, manifest: ReleaseManifest)
        ensures
            final(self).current == Some(manifest),
            final(self).history@ == history_after(
                old(self).history@,
                old(self).current,
                old(self).max_history,
            ),
            final(self).max_history == old(self).max_history,
    {
        let mut before: Option<ReleaseManifest> = Some(manifest);
        core::mem::swap(&mut before, &mut self.current);
        if let Some(prev) = before {
            self.history.push(prev);
            let ghost h = self.history@;
            if self.history.len() > self.max_history {
                let _ = self.history.remove(0);
                assert(self.history@ =~= h.drop_first());
            }
        }
    }

    /// The release that runs.
    pub fn current(&self) -> (r: Option<&ReleaseManifest>)
        ensures
            r is Some <==> self.current is Some,
            r matches Some(m) ==> *m == self.current->0,
    {
        match &self.current {
            Some(m) => Some(m),
            None => None,
        }
    }

    /// The releases before, the oldest first.
    pub fn history(&self) -> (r: &Vec<ReleaseManifest>)
        ensures
            *r == self.history,
    {
        &self.history
    }
}

/// The history never grows beyond its limit.
pub proof fn law_history_bounded<T>(history: Seq<T>, current: Option<T>, max: usize)
    requires
        history.len() <= max,
    ensures
        history_after(history, current, max).len() <= max,
{
}

// ---------------------------------------------------------------------------
// Progress
// ---------------------------------------------------------------------------
/// The JSON value of a step.
pub open spec fn step_json(s: StepV) -> JsonV {
    match s {
        StepV::UpgradeBehavior { name, from, to, extra } => wire::variant(
            "UpgradeBehavior"@,
            JsonV::Object(
                seq![
                    ("name"@, JsonV::Str(name)),
                    ("from"@, JsonV::Str(from)),
                    ("to"@, JsonV::Str(to)),
                    ("extra"@, extra),
                ],
            ),
        ),
        StepV::ApplyConfig { key, old_value, new_value } => wire::variant(
            "ApplyConfig"@,
            JsonV::Object(
                seq![
                    ("key"@, JsonV::Str(key)),
                    ("old_value"@, old_value),
                    ("new_value"@, new_value),
                ],
            ),
        ),
    }
}

/// The JSON value of the progress of a release.
pub open spec fn progress_json(p: ProgressV) -> JsonV {
    JsonV::Object(
        seq![
            ("schema_version"@, JsonV::Num(NumV::PosInt(p.schema_version as u64))),
            ("manifest_version"@, JsonV::Str(p.manifest_version)),
            (
                "plan"@,
                JsonV::Object(
                    seq![
                        ("steps"@, JsonV::Array(p.plan.map_values(|s: StepV| step_json(s)))),
                    ],
                ),
            ),
            ("completed_steps"@, JsonV::Num(NumV::PosInt(p.completed_steps as u64))),
        ],
    )
}

/// The step in a JSON value.
pub open spec fn step_of(v: JsonV) -> Option<StepV> {
    match wire::variant_of(v) {
        None => None,
        Some((name, contents)) => if name == "UpgradeBehavior"@ {
            let c = json::record(contents, change_names(), 4);
            match (c.get_text("name"@), c.get_text("from"@), c.get_text("to"@), c.get("extra"@)) {
                (Some(name), Some(from), Some(to), Some(extra)) => Some(
                    StepV::UpgradeBehavior { name, from, to, extra },
                ),
                _ => None,
            }
        } else if name == "ApplyConfig"@ {
            let c = json::record(contents, setting_names(), 3);
            match (c.get_text("key"@), c.get("old_value"@), c.get("new_value"@)) {
                (Some(key), Some(old_value), Some(new_value)) => Some(
                    StepV::ApplyConfig { key, old_value, new_value },
                ),
                _ => None,
            }
        } else {
            None
        },
    }
}

/// The steps in JSON values, where all of them are such.
pub open spec fn steps_of(a: Seq<JsonV>) -> Option<Seq<StepV>>
    decreases a.len(),
{
    if a.len() == 0 {
        Some(Seq::empty())
    } else {
        match (steps_of(a.drop_last()), step_of(a.last())) {
            (Some(s), Some(t)) => Some(s.push(t)),
            _ => None,
        }
    }
}

/// The steps of the plan in a JSON value.
pub open spec fn plan_in(v: JsonV) -> Option<Seq<StepV>> {
    match v.get("plan"@) {
        Some(p) => match json::record(p, plan_names(), 1).get("steps"@) {
            Some(JsonV::Array(a)) => steps_of(a),
            _ => None,
        },
        None => None,
    }
}

/// The progress of a release in a JSON value.
pub open spec fn progress_of(value: JsonV) -> Option<ProgressV> {
    let v = json::record(value, progress_names(), 4);
    match (
        small_number(v, "schema_version"@),
        v.get_text("manifest_version"@),
        plan_in(v),
        v.get_unsigned("completed_steps"@),
    ) {
        (Some(schema_version), Some(manifest_version), Some(plan), Some(n)) => if n <= usize::MAX {
            Some(ProgressV { schema_version, manifest_version, plan, completed_steps: n as nat })
        } else {
            None
        },
        _ => None,
    }
}

/// The progress that was read, or what is wrong with it.
pub open spec fn progress_in(parsed: Result<JsonV, Seq<char>>) -> Result<ProgressV, ErrorV> {
    match parsed {
        Err(e) => Err(ErrorV::Release("bad in_progress: "@ + e)),
        Ok(v) => match progress_of(v) {
            None => Err(ErrorV::Release("bad in_progress: "@ + BAD_MEMBER@)),
            Some(p) => Ok(p),
        },
    }
}

/// What reading gave.
pub open spec fn progress_view(r: Result<InProgressRelease, AgentRtError>) -> Result<
    ProgressV,
    ErrorV,
> {
    match r {
        Ok(p) => Ok(p@),
        Err(e) => Err(e@),
    }
}

impl ReleaseStep {
    /// The JSON value of this step.
    pub fn to_json(&self) -> (r: Json)
        ensures
            r@ == step_json(self@),
    {
        match self {
            ReleaseStep::UpgradeBehavior { name, from, to, extra } => {
                let mut o = ObjectBuilder::new();
                o.put_str("name", name.as_str());
                o.put_str("from", from.as_str());
                o.put_str("to", to.as_str());
                o.put("extra", extra.dup());
                assert(o@ =~= seq![
                    ("name"@, JsonV::Str(name@)),
                    ("from"@, JsonV::Str(from@)),
                    ("to"@, JsonV::Str(to@)),
                    ("extra"@, extra@),
                ]);
                make_variant("UpgradeBehavior", o.build())
            },
            ReleaseStep::ApplyConfig { key, old_value, new_value } => {
                let mut o = ObjectBuilder::new();
                o.put_str("key", key.as_str());
                o.put("old_value", old_value.dup());
                o.put("new_value", new_value.dup());
                assert(o@ =~= seq![
                    ("key"@, JsonV::Str(key@)),
                    ("old_value"@, old_value@),
                    ("new_value"@, new_value@),
                ]);
                make_variant("ApplyConfig", o.build())
            },
        }
    }

    /// The step in a JSON value, if it holds one.
    pub fn from_json(v: &Json) -> (r: Option<Self>)
        ensures
            (match r {
                Some(s) => Some(s@),
                None => None,
            }) == step_of(v@),
    {
        let (name, c) = read_variant(v)?;
        if str_eq(name.as_str(), "UpgradeBehavior") {
            let names: Vec<&str> = vec!["name", "from", "to", "extra"];
            assert(json::names_view(names@) =~= change_names());
            let c: Json = c.as_record(&names, 4);
            let name: String = c.get_str("name")?.clone();
            let from: String = c.get_str("from")?.clone();
            let to: String = c.get_str("to")?.clone();
            let extra: Json = c.get("extra")?.dup();
            Some(ReleaseStep::UpgradeBehavior { name, from, to, extra })
        } else if str_eq(name.as_str(), "ApplyConfig") {
            let names: Vec<&str> = vec!["key", "old_value", "new_value"];
            assert(json::names_view(names@) =~= setting_names());
            let c: Json = c.as_record(&names, 3);
            let key: String = c.get_str("key")?.clone();
            let old_value: Json = c.get("old_value")?.dup();
            let new_value: Json = c.get("new_value")?.dup();
            Some(ReleaseStep::ApplyConfig { key, old_value, new_value })
        } else {
            None
        }
    }
}

proof fn lemma_steps_none(a: Seq<JsonV>, i: int)
    requires
        0 <= i < a.len(),
        step_of(a[i]) is None,
    ensures
        steps_of(a) is None,
    decreases a.len(),
{
    if i < a.len() - 1 {
        lemma_steps_none(a.drop_last(), i);
    }
}

fn read_steps(a: &Vec<Json>) -> (r: Option<Vec<ReleaseStep>>)
    ensures
        (match r {
            Some(s) => Some(steps_view(s@)),
            None => None,
        }) == steps_of(json::array_view(a@)),
{
    let ghost all = json::array_view(a@);
    let mut out: Vec<ReleaseStep> = Vec::new();
    let mut i: usize = 0;
    assert(all.take(0) =~= Seq::<JsonV>::empty());
    assert(steps_view(out@) =~= Seq::<StepV>::empty());
    while i < a.len()
        invariant
            i <= a@.len(),
            all == json::array_view(a@),
            steps_of(all.take(i as int)) == Some(steps_view(out@)),
        decreases a@.len() - i,
    {
        assert(all.take(i + 1).drop_last() =~= all.take(i as int));
        assert(all[i as int] == a@[i as int]@);
        match ReleaseStep::from_json(&a[i]) {
            Some(t) => {
                let ghost before = out@;
                out.push(t);
                assert(steps_view(out@) =~= steps_view(before).push(t@));
            },
            None => {
                proof {
                    lemma_steps_none(all, i as int);
                }
                return None;
            },
        }
        i += 1;
    }
    assert(all.take(i as int) =~= all);
    Some(out)
}

fn read_progress(v: &Json) -> (r: Option<InProgressRelease>)
    ensures
        (match r {
            Some(p) => Some(p@),
            None => None,
        }) == progress_of(v@),
{
    let names: Vec<&str> = vec!["schema_version", "manifest_version", "plan", "completed_steps"];
    assert(json::names_view(names@) =~= progress_names());
    let v: Json = v.as_record(&names, 4);
    let schema_version: u32 = get_u32(&v, "schema_version")?;
    let manifest_version: String = v.get_str("manifest_version")?.clone();
    let inner: Vec<&str> = vec!["steps"];
    assert(json::names_view(inner@) =~= plan_names());
    let plan: Json = v.get("plan")?.as_record(&inner, 1);
    let steps: Vec<ReleaseStep> = match plan.get("steps") {
        Some(Json::Array(a)) => {
            proof {
                json::lemma_array_tree(*a);
            }
            read_steps(a)?
        },
        _ => {
            return None;
        },
    };
    let n: u64 = v.get_u64("completed_steps")?;
    if n > usize::MAX as u64 {
        return None;
    }
    Some(
        InProgressRelease {
            schema_version,
            manifest_version,
            plan: ReleasePlan { steps },
            completed_steps: n as usize,
        },
    )
}

impl InProgressRelease {
    /// The JSON value of this progress.
    pub fn to_json(&self) -> (r: Json)
        ensures
            r@ == progress_json(self@),
    {
        let mut list: Vec<Json> = Vec::new();
        let mut i: usize = 0;
        while i < self.plan.steps.len()
            invariant
                i <= self.plan.steps@.len(),
                list@.len() == i,
                forall|j: int|
                    0 <= j < i ==> (#[trigger] list@[j])@ == step_json(self.plan.steps@[j]@),
            decreases self.plan.steps@.len() - i,
        {
            list.push(self.plan.steps[i].to_json());
            i += 1;
        }
        proof {
            json::lemma_array_tree(list);
            assert(json::array_view(list@) =~= self@.plan.map_values(|s: StepV| step_json(s)));
        }
        let mut p = ObjectBuilder::new();
        p.put("steps", Json::Array(list));
        let plan: Json = p.build();
        let mut o = ObjectBuilder::new();
        o.put_u64("schema_version", self.schema_version as u64);
        o.put_str("manifest_version", self.manifest_version.as_str());
        o.put("plan", plan);
        o.put_u64("completed_steps", self.completed_steps as u64);
        proof {
            assert(plan@->Object_0 =~= seq![
                ("steps"@, JsonV::Array(self@.plan.map_values(|s: StepV| step_json(s)))),
            ]);
            assert(o@ =~= progress_json(self@)->Object_0);
        }
        o.build()
    }

    /// The text of this progress, as it is kept in a file.
    pub fn to_text(&self) -> (r: String)
        ensures
            r@ == json::json_pretty(progress_json(self@)),
            json::storable(progress_json(self@)) ==> json::reads_back(r@, progress_json(self@)),
    {
        self.to_json().to_pretty()
    }

    /// The progress that was read, or what is wrong with it.
    pub fn from_value(parsed: Result<Json, String>) -> (r: Result<Self, AgentRtError>)
        ensures
            progress_view(r) == progress_in(json::parse_view(parsed)),
    {
        match parsed {
            Err(e) => Err(AgentRtError::Release(concat2("bad in_progress: ", e.as_str()))),
            Ok(v) => match read_progress(&v) {
                Some(p) => Ok(p),
                None => Err(AgentRtError::Release(concat2("bad in_progress: ", BAD_MEMBER))),
            },
        }
    }

    /// Reads progress from its text.
    pub fn from_text(text: &str) -> (r: Result<Self, AgentRtError>)
        ensures
            progress_view(r) == progress_in(json::json_parsed(text@)),
    {
        Self::from_value(Json::parse(text))
    }
}

// ---------------------------------------------------------------------------
// What is written is read back
// ---------------------------------------------------------------------------
/// Two steps are the same, up to the order of members in their values.
pub open spec fn same_step(a: StepV, b: StepV) -> bool {
    match (a, b) {
        (
            StepV::UpgradeBehavior { name: n1, from: f1, to: t1, extra: e1 },
            StepV::UpgradeBehavior { name: n2, from: f2, to: t2, extra: e2 },
        ) => n1 == n2 && f1 == f2 && t1 == t2 && json::same_json(e1, e2),
        (
            StepV::ApplyConfig { key: k1, old_value: o1, new_value: n1 },
            StepV::ApplyConfig { key: k2, old_value: o2, new_value: n2 },
        ) => k1 == k2 && json::same_json(o1, o2) && json::same_json(n1, n2),
        _ => false,
    }
}

proof fn lemma_variants_differ()
    ensures
        "UpgradeBehavior"@ != "ApplyConfig"@,
{
    reveal_strlit("UpgradeBehavior");
    reveal_strlit("ApplyConfig");
    assert("UpgradeBehavior"@.len() == 15 && "ApplyConfig"@.len() == 11);
}

/// A step is found again in whatever is the same as its JSON value.
pub proof fn law_step_comes_back(s: StepV, w: JsonV)
    requires
        json::same_json(step_json(s), w),
    ensures
        step_of(w) matches Some(t) && same_step(s, t),
{
    lemma_variants_differ();
    match s {
        StepV::UpgradeBehavior { name, from, to, extra } => {
            let x = seq![
                ("name"@, JsonV::Str(name)),
                ("from"@, JsonV::Str(from)),
                ("to"@, JsonV::Str(to)),
                ("extra"@, extra),
            ];
            wire::lemma_same_variant("UpgradeBehavior"@, JsonV::Object(x), w);
            let c = (wire::variant_of(w)->0).1;
            json::lemma_same_member(x, c, 0);
            json::lemma_same_member(x, c, 1);
            json::lemma_same_member(x, c, 2);
            json::lemma_same_member(x, c, 3);
            assert(x[0].0 == "name"@ && x[1].0 == "from"@ && x[2].0 == "to"@ && x[3].0 == "extra"@);
        },
        StepV::ApplyConfig { key, old_value, new_value } => {
            let x = seq![
                ("key"@, JsonV::Str(key)),
                ("old_value"@, old_value),
                ("new_value"@, new_value),
            ];
            wire::lemma_same_variant("ApplyConfig"@, JsonV::Object(x), w);
            let c = (wire::variant_of(w)->0).1;
            json::lemma_same_member(x, c, 0);
            json::lemma_same_member(x, c, 1);
            json::lemma_same_member(x, c, 2);
            assert(x[0].0 == "key"@ && x[1].0 == "old_value"@ && x[2].0 == "new_value"@);
        },
    }
}

/// Two plans have the same steps.
pub open spec fn same_plan(a: Seq<StepV>, b: Seq<StepV>) -> bool {
    a.len() == b.len() && forall|i: int| 0 <= i < a.len() ==> same_step(#[trigger] a[i], b[i])
}

proof fn lemma_steps_come_back(s: Seq<StepV>, b: Seq<JsonV>)
    requires
        s.len() == b.len(),
        forall|i: int| 0 <= i < s.len() ==> json::same_json(step_json(#[trigger] s[i]), b[i]),
    ensures
        steps_of(b) matches Some(t) && same_plan(s, t),
    decreases s.len(),
{
    if s.len() > 0 {
        let n = s.len() - 1;
        assert forall|i: int| 0 <= i < n implies json::same_json(
            step_json(#[trigger] s.drop_last()[i]),
            b.drop_last()[i],
        ) by {
            assert(s.drop_last()[i] == s[i]);
        }
        lemma_steps_come_back(s.drop_last(), b.drop_last());
        assert(json::same_json(step_json(s[n]), b[n]));
        law_step_comes_back(s[n], b[n]);
        let t = steps_of(b)->0;
        let u = steps_of(b.drop_last())->0;
        assert forall|i: int| 0 <= i < s.len() implies same_step(#[trigger] s[i], t[i]) by {
            if i < n {
                assert(s.drop_last()[i] == s[i]);
                assert(t[i] == u[i]);
            }
        }
    }
}

/// The progress of a release is found again in whatever is the same as its JSON value.
pub proof fn law_progress_comes_back(p: ProgressV, w: JsonV)
    requires
        json::same_json(progress_json(p), w),
        p.completed_steps <= usize::MAX,
    ensures
        progress_of(w) matches Some(q) && q.schema_version == p.schema_version
            && q.manifest_version == p.manifest_version && q.completed_steps == p.completed_steps
            && same_plan(p.plan, q.plan),
{
    let x = progress_json(p)->Object_0;
    json::lemma_same_member(x, w, 0);
    json::lemma_same_member(x, w, 1);
    json::lemma_same_member(x, w, 2);
    json::lemma_same_member(x, w, 3);
    assert(x[0].0 == "schema_version"@ && x[1].0 == "manifest_version"@ && x[2].0 == "plan"@
        && x[3].0 == "completed_steps"@);
    let plan = w.get("plan"@)->0;
    let y = x[2].1->Object_0;
    json::lemma_same_member(y, plan, 0);
    assert(y[0].0 == "steps"@);
    let a = p.plan.map_values(|s: StepV| step_json(s));
    assert(y[0].1 == JsonV::Array(a));
    let steps = plan.get("steps"@)->0;
    assert(steps is Array);
    let b = steps->Array_0;
    assert forall|i: int| 0 <= i < p.plan.len() implies json::same_json(
        step_json(#[trigger] p.plan[i]),
        b[i],
    ) by {
        assert(a[i] == step_json(p.plan[i]));
    }
    lemma_steps_come_back(p.plan, b);
}

/// The plan of a release changes every behavior of it, in order, from the version before to the new
/// one.
pub proof fn law_each_behavior_changed(m: ManifestV, current: JsonV, keys: Seq<Seq<char>>, i: int)
    requires
        0 <= i < m.behaviors.len(),
    ensures
        plan_of(m, current, keys).len() == m.behaviors.len() + keys.len(),
        plan_of(m, current, keys)[i] matches StepV::UpgradeBehavior { name, from, to, extra } && name
            == m.behaviors[i].name && from == m.behaviors[i].upgrade_from && to
            == m.behaviors[i].version && extra == m.behaviors[i].extra,
{
}

/// The plan of a release changes every setting of it, once, after the behaviors, and remembers what
/// it was, so that it can be put back.
pub proof fn law_each_setting_changed(
    m: ManifestV,
    current: JsonV,
    keys: Seq<Seq<char>>,
    k: Seq<char>,
)
    requires
        each_key(keys, m.config_changes),
        m.config_changes.dom().contains(k),
    ensures
        exists|i: int|
            #![trigger plan_of(m, current, keys)[i]]
            m.behaviors.len() <= i < plan_of(m, current, keys).len() && (plan_of(
                m,
                current,
                keys,
            )[i] matches StepV::ApplyConfig { key, old_value, new_value } && key == k && new_value
                == m.config_changes[k] && (current.get(k) matches Some(v) ==> old_value == v) && (
            current.get(k) is None ==> old_value == JsonV::Null)),
        forall|i: int, j: int|
            #![trigger plan_of(m, current, keys)[i], plan_of(m, current, keys)[j]]
            m.behaviors.len() <= i < j < plan_of(m, current, keys).len() ==> (plan_of(
                m,
                current,
                keys,
            )[i] is ApplyConfig && plan_of(m, current, keys)[i]->key != plan_of(
                m,
                current,
                keys,
            )[j]->key),
{
    let p = plan_of(m, current, keys);
    let n = m.behaviors.len() as int;
    assert(keys.contains(k));
    let x = choose|x: int| 0 <= x < keys.len() && keys[x] == k;
    assert(p[n + x] == config_step(m.config_changes, current, k));
    assert forall|i: int, j: int| n <= i < j < p.len() implies p[i] is ApplyConfig && p[i]->key
        != p[j]->key by {
        assert(p[i] == config_step(m.config_changes, current, keys[i - n]));
        assert(p[j] == config_step(m.config_changes, current, keys[j - n]));
        assert(keys[i - n] != keys[j - n]);
    }
}

/// The release that ran before is the newest of the history, and the others stay in their order; only
/// the oldest leaves, and only where there are too many.
pub proof fn law_release_before_is_kept<T>(history: Seq<T>, current: T, max: usize)
    ensures
        max > 0 || history.len() > 0 ==> history_after(history, Some(current), max).last()
            == current,
        history.len() < max ==> history_after(history, Some(current), max).drop_last() == history,
        history.len() >= max && history.len() > 0 ==> history_after(
            history,
            Some(current),
            max,
        ).drop_last() == history.drop_first(),
        history_after(history, None, max) == history,
{
    let h = history_after(history, Some(current), max);
    if history.len() < max {
        assert(h.drop_last() =~= history);
    } else if history.len() > 0 {
        assert(h.drop_last() =~= history.drop_first());
    }
}

/// Of a manifest its version, the version before, and the changes of settings are read as they stand
/// there; each behavior in it is read, in order.
pub proof fn law_manifest_is_read(m: Seq<(Seq<char>, JsonV)>, a: Seq<JsonV>, i: int)
    requires
        manifest_of(JsonV::Object(m)) is Some,
        JsonV::Object(m).get("behaviors"@) == Some(JsonV::Array(a)),
        0 <= i < a.len(),
    ensures
        ({
            let v = JsonV::Object(m);
            let r = manifest_of(v)->0;
            &&& v.get_text("version"@) == Some(r.version)
            &&& v.get_unsigned("schema_version"@) == Some(r.schema_version as u64)
            &&& v.get_text("previous"@) == r.previous
            &&& r.behaviors.len() == a.len()
            &&& (a[i] is Object ==> a[i].get_text("name"@) == Some(r.behaviors[i].name)
                && a[i].get_text("version"@) == Some(r.behaviors[i].version) && a[i].get_text(
                "upgrade_from"@,
            ) == Some(r.behaviors[i].upgrade_from))
            &&& v.get("config_changes"@) is None ==> r.config_changes.dom() =~= Set::empty()
        }),
{
    lemma_upgrades_read(a, i);
}

proof fn lemma_upgrades_read(a: Seq<JsonV>, i: int)
    requires
        upgrades_of(a) is Some,
        0 <= i < a.len(),
    ensures
        upgrades_of(a)->0.len() == a.len(),
        upgrade_of(a[i]) == Some(upgrades_of(a)->0[i]),
    decreases a.len(),
{
    let t = a.drop_last();
    assert(upgrades_of(t) is Some);
    assert(t.len() == 0 ==> upgrades_of(t)->0.len() == 0);
    if i < t.len() {
        lemma_upgrades_read(t, i);
    } else if t.len() > 0 {
        lemma_upgrades_read(t, 0);
    }
}

/// Of several changes of one setting the last counts, and a setting that is not named does not change.
pub proof fn law_last_change_counts(s: Seq<(Seq<char>, JsonV)>, i: int)
    requires
        0 <= i < s.len(),
        forall|j: int| i < j < s.len() ==> (#[trigger] s[j]).0 != s[i].0,
    ensures
        members_map(s).dom().contains(s[i].0),
        members_map(s)[s[i].0] == s[i].1,
        forall|k: Seq<char>| #[trigger]
            members_map(s).dom().contains(k) ==> exists|j: int|
                0 <= j < s.len() && (#[trigger] s[j]).0 == k,
    decreases s.len(),
{
    let t = s.drop_last();
    assert(s.last() == s[s.len() - 1]);
    if i < t.len() {
        assert forall|j: int| i < j < t.len() implies (#[trigger] t[j]).0 != t[i].0 by {
            assert(t[j] == s[j]);
        }
        law_last_change_counts(t, i);
        assert(s[s.len() - 1].0 != s[i].0);
    }
    assert forall|k: Seq<char>| #[trigger] members_map(s).dom().contains(k) implies exists|j: int|
        0 <= j < s.len() && (#[trigger] s[j]).0 == k by {
        lemma_named(s, k);
    }
}

proof fn lemma_named(s: Seq<(Seq<char>, JsonV)>, k: Seq<char>)
    requires
        members_map(s).dom().contains(k),
    ensures
        exists|j: int| 0 <= j < s.len() && (#[trigger] s[j]).0 == k,
    decreases s.len(),
{
    if s.len() > 0 {
        assert(s.last() == s[s.len() - 1]);
        if s.last().0 != k {
            let t = s.drop_last();
            lemma_named(t, k);
            let j = choose|j: int| 0 <= j < t.len() && (#[trigger] t[j]).0 == k;
            assert(s[j].0 == k);
        }
    }
}

} // verus!
