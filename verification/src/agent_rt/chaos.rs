//! Failures on purpose, always the same ones for the same seed.
use vstd::prelude::*;
use crate::agent_rt::checkpoint::InMemoryCheckpointStore;
use crate::agent_rt::error::{AgentRtError, ErrorV};
use crate::json::{Json, JsonV, ObjectBuilder};
use crate::util::text;
use crate::util::text::{parse_u64, split_on, str_eq, trim};

verus! {

/// How an attempt fails.
#[derive(Debug, Clone, Copy, PartialEq, Eq, Structural)]
pub enum FaultMode {
    Error,
    Timeout,
    CorruptData,
}

/// Which attempts fail, and how. Out of ten thousand attempts, about `fail_below` fail.
#[derive(Debug, PartialEq, Eq)]
pub struct FaultConfig {
    pub fail_below: u32,
    pub seed: u64,
    pub modes: Vec<FaultMode>,
}

/// The number between zero and ten thousand that decides an attempt.
pub open spec fn roll(seed: u64, attempt: u64) -> u64 {
    seed.wrapping_mul(6364136223846793005).wrapping_add(attempt) % 10_000
}

/// Whether an attempt fails.
pub open spec fn fails(fail_below: u32, seed: u64, attempt: u64) -> bool {
    roll(seed, attempt) < fail_below
}

/// How an attempt fails: the modes take turns.
pub open spec fn mode_of(modes: Seq<FaultMode>, attempt: u64) -> FaultMode {
    if modes.len() == 0 {
        FaultMode::Error
    } else {
        modes[(attempt as usize as int) % (modes.len() as int)]
    }
}

impl FaultConfig {
    /// Whether an attempt fails.
    pub fn should_fail(&self, attempt: u64) -> (r: bool)
        ensures
            r == fails(self.fail_below, self.seed, attempt),
    {
        let hash: u64 = self.seed.wrapping_mul(6364136223846793005).wrapping_add(attempt);
        hash % 10_000 < self.fail_below as u64
    }

    /// How an attempt fails.
    pub fn pick_mode(&self, attempt: u64) -> (r: FaultMode)
        ensures
            r == mode_of(self.modes@, attempt),
    {
        if self.modes.len() == 0 {
            return FaultMode::Error;
        }
        let i: usize = (attempt as usize) % self.modes.len();
        self.modes[i]
    }
}

/// A store of checkpoints whose operations fail on purpose.
pub struct FaultyCheckpointStore {
    pub inner: InMemoryCheckpointStore,
    pub config: FaultConfig,
    pub attempt: u64,
}

/// What is said of a failure on purpose.
pub open spec fn injected(op: Seq<char>) -> ErrorV {
    ErrorV::Checkpoint("chaos: injected "@ + op + " failure"@)
}

fn inject(op: &str) -> (r: AgentRtError)
    ensures
        r@ == injected(op@),
{
    AgentRtError::Checkpoint(crate::util::text::concat3("chaos: injected ", op, " failure"))
}

impl FaultyCheckpointStore {
    /// The next operation fails.
    pub open spec fn next_fails(&self) -> bool {
        fails(self.config.fail_below, self.config.seed, self.attempt)
    }

    /// A store around another.
    pub fn new(inner: InMemoryCheckpointStore, config: FaultConfig) -> (r: Self)
        ensures
            r.inner == inner,
            r.config == config,
            r.attempt == 0,
    {
        FaultyCheckpointStore { inner, config, attempt: 0 }
    }

    /// Keeps a checkpoint, unless it fails.
    pub fn save(&mut self, key: &str, checkpoint: &Json, now: i64) -> (r: Result<(), AgentRtError>)
        ensures
            final(self).config == old(self).config,
            final(self).attempt == old(self).attempt.wrapping_add(1),
            r is Err <==> old(self).next_fails(),
            r matches Err(e) ==> e@ == injected("save"@) && final(self).inner@ == old(self).inner@,
            r is Ok ==> final(self).inner@ == old(self).inner@.insert(key@, (checkpoint@, now)),
    {
        let attempt: u64 = self.attempt;
        self.attempt = attempt.wrapping_add(1);
        if self.config.should_fail(attempt) {
            return Err(inject("save"));
        }
        self.inner.save(key, checkpoint, now);
        Ok(())
    }

    /// The checkpoint under a key, unless it fails: with an error, or with a value that was
    /// never saved.
    pub fn load(&mut self, key: &str) -> (r: Result<Option<Json>, AgentRtError>)
        ensures
            final(self).config == old(self).config,
            final(self).attempt == old(self).attempt.wrapping_add(1),
            final(self).inner == old(self).inner,
            old(self).next_fails() ==> if mode_of(old(self).config.modes@, old(self).attempt)
                == FaultMode::CorruptData {
                r matches Ok(Some(j)) && j@ == JsonV::Object(
                    seq![("corrupted"@, JsonV::Bool(true))],
                )
            } else {
                r matches Err(e) && e@ == injected("load"@)
            },
            !old(self).next_fails() ==> match r {
                Ok(Some(j)) => old(self).inner@.dom().contains(key@) && j@
                    == old(self).inner@[key@].0,
                Ok(None) => !old(self).inner@.dom().contains(key@),
                Err(_) => false,
            },
    {
        let attempt: u64 = self.attempt;
        self.attempt = attempt.wrapping_add(1);
        if self.config.should_fail(attempt) {
            if self.config.pick_mode(attempt) == FaultMode::CorruptData {
                let mut o = ObjectBuilder::new();
                o.put("corrupted", Json::Bool(true));
                assert(o@ =~= seq![("corrupted"@, JsonV::Bool(true))]);
                return Ok(Some(o.build()));
            }
            return Err(inject("load"));
        }
        Ok(self.inner.load(key))
    }

    /// Drops a checkpoint, unless it fails.
    pub fn delete(&mut self, key: &str) -> (r: Result<(), AgentRtError>)
        ensures
            final(self).config == old(self).config,
            final(self).attempt == old(self).attempt.wrapping_add(1),
            r is Err <==> old(self).next_fails(),
            r matches Err(e) ==> e@ == injected("delete"@) && final(self).inner@
                == old(self).inner@,
            r is Ok ==> final(self).inner@ == old(self).inner@.remove(key@),
    {
        let attempt: u64 = self.attempt;
        self.attempt = attempt.wrapping_add(1);
        if self.config.should_fail(attempt) {
            return Err(inject("delete"));
        }
        self.inner.delete(key);
        Ok(())
    }
}

/// Failures on purpose, as the environment asks for them.
#[derive(Debug, PartialEq, Eq)]
pub struct ChaosConfig {
    pub enabled: bool,
    pub fail_below: u32,
    pub seed: u64,
    pub modes: Vec<FaultMode>,
}

/// The mode of a name.
pub open spec fn mode_named(name: Seq<char>) -> Option<FaultMode> {
    if name == "error"@ {
        Some(FaultMode::Error)
    } else if name == "timeout"@ {
        Some(FaultMode::Timeout)
    } else if name == "corrupt"@ {
        Some(FaultMode::CorruptData)
    } else {
        None
    }
}

/// The modes that a list of names asks for; unknown names are left out.
pub open spec fn modes_named(names: Seq<Seq<char>>) -> Seq<FaultMode>
    decreases names.len(),
{
    if names.len() == 0 {
        Seq::empty()
    } else {
        let before = modes_named(names.drop_last());
        match mode_named(text::trimmed(names.last())) {
            Some(m) => before.push(m),
            None => before,
        }
    }
}

fn read_mode(name: &str) -> (r: Option<FaultMode>)
    ensures
        r == mode_named(name@),
{
    if str_eq(name, "error") {
        Some(FaultMode::Error)
    } else if str_eq(name, "timeout") {
        Some(FaultMode::Timeout)
    } else if str_eq(name, "corrupt") {
        Some(FaultMode::CorruptData)
    } else {
        None
    }
}

fn read_modes(list: &str) -> (r: Vec<FaultMode>)
    ensures
        r@ == modes_named(text::split(list@, ',')),
{
    let names: Vec<String> = split_on(list, ',');
    let ghost all = text::strings_view(names@);
    let mut out: Vec<FaultMode> = Vec::new();
    let mut i: usize = 0;
    assert(all.take(0) =~= Seq::<Seq<char>>::empty());
    while i < names.len()
        invariant
            i <= names@.len(),
            all == text::strings_view(names@),
            out@ == modes_named(all.take(i as int)),
        decreases names@.len() - i,
    {
        assert(all.take(i + 1).drop_last() =~= all.take(i as int));
        assert(all[i as int] == names@[i as int]@);
        let name: String = trim(names[i].as_str());
        if let Some(m) = read_mode(name.as_str()) {
            out.push(m);
        }
        i += 1;
    }
    assert(all.take(i as int) =~= all);
    out
}

/// What an optional text is.
pub open spec fn opt_text(o: Option<&str>) -> Option<Seq<char>> {
    match o {
        Some(s) => Some(s@),
        None => None,
    }
}

impl ChaosConfig {
    /// What the values of the environment ask for: whether there are failures, how often, with
    /// which seed, and how. What is missing or makes no sense has its default.
    pub fn from_vars(
        enabled: Option<&str>,
        fail_below: Option<u32>,
        seed: Option<&str>,
        modes: Option<&str>,
    ) -> (r: Self)
        ensures
            r.enabled <==> (enabled matches Some(v) && (v@ == "true"@ || v@ == "1"@)),
            r.fail_below == match fail_below {
                Some(n) => n,
                None => 500,
            },
            r.seed == match opt_text(seed) {
                Some(s) => match text::number(s) {
                    Ok(n) => n,
                    Err(_) => 42,
                },
                None => 42,
            },
            r.modes@ == match opt_text(modes) {
                Some(s) => modes_named(text::split(s, ',')),
                None => seq![FaultMode::Error],
            },
    {
        let on: bool = match enabled {
            Some(v) => str_eq(v, "true") || str_eq(v, "1"),
            None => false,
        };
        let seed: u64 = match seed {
            Some(s) => match parse_u64(s) {
                Ok(n) => n,
                Err(_) => 42,
            },
            None => 42,
        };
        let modes: Vec<FaultMode> = match modes {
            Some(s) => read_modes(s),
            None => {
                let mut v: Vec<FaultMode> = Vec::new();
                v.push(FaultMode::Error);
                assert(v@ =~= seq![FaultMode::Error]);
                v
            },
        };
        ChaosConfig {
            enabled: on,
            fail_below: match fail_below {
                Some(n) => n,
                None => 500,
            },
            seed,
            modes,
        }
    }
}

/// Without failures to be had, no attempt fails; where all attempts are to fail, each one does.
pub proof fn law_extreme_rates(seed: u64, attempt: u64)
    ensures
        !fails(0, seed, attempt),
        fails(10_000, seed, attempt),
{
}

/// Out of any ten thousand attempts in a row just as many fail as are to: their numbers run through
/// all from zero on, each of them once.
pub proof fn law_numbers_take_turns(seed: u64, attempt: u64)
    requires
        seed.wrapping_mul(6364136223846793005) + attempt < u64::MAX,
    ensures
        roll(seed, (attempt + 1) as u64) == (roll(seed, attempt) + 1) % 10_000,
        roll(seed, attempt) < 10_000,
        fails(1, seed, attempt) <==> roll(seed, attempt) == 0,
        forall|n: u32| #[trigger] fails(n, seed, attempt) <==> roll(seed, attempt) < n,
{
}

/// The ways to fail take turns, in their order.
pub proof fn law_modes_take_turns(modes: Seq<FaultMode>, attempt: u64)
    requires
        0 < modes.len() <= 0xffff_ffff,
        attempt <= 0xffff_ffff,
    ensures
        attempt < modes.len() ==> mode_of(modes, attempt) == modes[attempt as int],
        modes.contains(mode_of(modes, attempt)),
        attempt + modes.len() <= 0xffff_ffff ==> mode_of(modes, (attempt + modes.len()) as u64)
            == mode_of(modes, attempt),
{
    let n = modes.len() as int;
    let i = attempt as int;
    assert(0 <= i % n < n) by (nonlinear_arith)
        requires
            n > 0,
    ;
    vstd::arithmetic::div_mod::lemma_mod_add_multiples_vanish(i, n);
    if i < n {
        vstd::arithmetic::div_mod::lemma_small_mod(attempt as nat, modes.len());
    }
    assert(modes[i % n] == mode_of(modes, attempt));
}

/// A list of names asks for the way of each known name, in order; white space around a name and
/// unknown names do not count.
pub proof fn law_names_ask_for_modes(names: Seq<Seq<char>>, name: Seq<char>)
    ensures
        modes_named(Seq::empty()).len() == 0,
        text::trimmed(name) == "error"@ ==> modes_named(names.push(name)) == modes_named(
            names,
        ).push(FaultMode::Error),
        text::trimmed(name) == "timeout"@ ==> modes_named(names.push(name)) == modes_named(
            names,
        ).push(FaultMode::Timeout),
        text::trimmed(name) == "corrupt"@ ==> modes_named(names.push(name)) == modes_named(
            names,
        ).push(FaultMode::CorruptData),
        text::trimmed(name) != "error"@ && text::trimmed(name) != "timeout"@ && text::trimmed(name)
            != "corrupt"@ ==> modes_named(names.push(name)) == modes_named(names),
{
    reveal_strlit("error");
    reveal_strlit("timeout");
    reveal_strlit("corrupt");
    assert("error"@.len() == 5 && "timeout"@.len() == 7 && "corrupt"@.len() == 7);
    assert("timeout"@[0] == 't' && "corrupt"@[0] == 'c');
    assert(names.push(name).drop_last() =~= names);
}

} // verus!
