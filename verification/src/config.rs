//! Configuration tables with integer contents, their defaults, and the
//! validation rules over them.
//!
//! Validation is where the constitution meets the operator: a table that
//! would break it is refused with an error naming the field, the offending
//! value and the allowed range. Every rule here is stated as a spec
//! function returning the first fault of a table (field, value, expected),
//! and each validator reports exactly that fault.

use vstd::prelude::*;
use vstd::string::*;

use crate::element::ElementType;
use crate::grid::Position;
use crate::kitty::{KittyId, RESERVED_KITTY_ID};
use crate::meow::MessageKind;
use crate::text::{
    blank, decimal, decimal_string, is_blank, join_texts, joined, push_decimal, sort_texts,
    sorted_texts, texts,
};

verus! {

/// Elements may occupy at most one tile in every `TILES_PER_ELEMENT`.
pub const TILES_PER_ELEMENT: u32 = 32;

/// A validation fault as text: the field, its offending value, and what was
/// expected of it.
pub type Fault = (Seq<char>, Seq<char>, Seq<char>);

#[derive(Debug, Clone, PartialEq)]
pub enum ConfigError {
    Invalid { field: String, value: String, expected: String },
    Message(String),
}

impl ConfigError {
    /// This error reports exactly `f`.
    pub open spec fn describes(&self, f: Fault) -> bool {
        match self {
            ConfigError::Invalid { field, value, expected } => {
                &&& field@ == f.0
                &&& value@ == f.1
                &&& expected@ == f.2
            },
            ConfigError::Message(_) => false,
        }
    }

    fn invalid(field: String, value: String, expected: String) -> (e: ConfigError)
        ensures
            e.describes((field@, value@, expected@)),
    {
        ConfigError::Invalid { field, value, expected }
    }

    /// The message an operator reads.
    pub open spec fn text(&self) -> Seq<char> {
        match self {
            ConfigError::Invalid { field, value, expected } => "config error: "@ + field@
                + " is "@ + value@ + "; "@ + expected@,
            ConfigError::Message(m) => "config error: "@ + m@,
        }
    }

    /// The operator-facing message of this error.
    pub fn message(&self) -> (s: String)
        ensures
            s@ == self.text(),
    {
        let mut s = String::from_str("config error: ");
        match self {
            ConfigError::Invalid { field, value, expected } => {
                s.append(field.as_str());
                s.append(" is ");
                s.append(value.as_str());
                s.append("; ");
                s.append(expected.as_str());
            },
            ConfigError::Message(m) => {
                s.append(m.as_str());
            },
        }
        s
    }
}

/// Builds the error reporting the fault `(field, value, expected)`.
fn fault(field: &str, value: String, expected: &str) -> (e: ConfigError)
    ensures
        e.describes((field@, value@, expected@)),
{
    ConfigError::invalid(String::from_str(field), value, String::from_str(expected))
}

/// A table this crate accepts and discards because another parser owns it.
#[derive(Debug, Clone, Copy, Default, PartialEq)]
pub struct ForeignTable;

/// Who pays the waterline-contagion charge.
#[derive(Debug, Clone, Copy, PartialEq, Eq, Structural)]
pub enum ContagionMembership {
    /// Only the dry cat whose own activity names a wet partner pays.
    OptionA,
    /// Any dry member of a wet/dry pair pays, either role.
    Bidirectional,
}

impl ContagionMembership {
    pub fn is_option_a(&self) -> (b: bool)
        ensures
            b == (*self == ContagionMembership::OptionA),
    {
        match self {
            ContagionMembership::OptionA => true,
            ContagionMembership::Bidirectional => false,
        }
    }
}

#[derive(Debug, Clone, PartialEq)]
pub struct WorldConfig {
    pub width: u32,
    pub height: u32,
    pub tick_ms: u64,
    pub seed: u64,
    pub bind: String,
}

/// `width × height`, saturating at `u32::MAX`.
pub open spec fn area_of(width: u32, height: u32) -> int {
    if width * height <= u32::MAX {
        width * height
    } else {
        u32::MAX as int
    }
}

impl WorldConfig {
    pub open spec fn tiles(&self) -> int {
        area_of(self.width, self.height)
    }

    /// The number of tiles, saturating at `u32::MAX`.
    pub fn area(&self) -> (a: u32)
        ensures
            a == self.tiles(),
    {
        match self.width.checked_mul(self.height) {
            Some(a) => a,
            None => u32::MAX,
        }
    }

    /// The served default world: 32 x 32 at 800 ms a tick.
    pub fn default_world() -> (w: WorldConfig)
        ensures
            w.width == 32,
            w.height == 32,
            w.tick_ms == 800,
            w.seed == 20260718,
            w.bind@ == "127.0.0.1:8090"@,
    {
        WorldConfig { width: 32, height: 32, tick_ms: 800, seed: 20260718, bind: default_bind() }
    }
}

/// The chase windows: how long a chase may go without gaining ground, and
/// how long a target given up on stays excluded.
#[derive(Debug, Clone, Copy, PartialEq, Eq, Structural)]
pub struct ChaseRules {
    pub chase_patience_ticks: u64,
    pub chase_exclusion_ticks: u64,
}

#[derive(Debug, Clone, PartialEq)]
pub struct PersistenceConfig {
    pub snapshot_path: String,
    pub save_every_ticks: u64,
}

impl PersistenceConfig {
    pub fn default_persistence() -> (p: PersistenceConfig)
        ensures
            p.snapshot_path@ == "snapshot.json"@,
            p.save_every_ticks == 100,
    {
        PersistenceConfig { snapshot_path: String::from_str("snapshot.json"), save_every_ticks: 100 }
    }
}

/// Population and lifetime rules of one element type.
#[derive(Debug, Clone, Copy, PartialEq, Eq, Structural)]
pub struct ElementRule {
    pub min: u32,
    pub max: u32,
    pub ttl: Option<u64>,
    pub servings: Option<u32>,
    pub roam_cell: Option<u32>,
    pub dart: bool,
}

/// The interior preference as the rules read it: off (exactly zero), on (a
/// positive number of tiles), or not a usable number, with the text it was
/// written as.
#[derive(Debug, Clone, PartialEq)]
pub enum EdgePenalty {
    Off,
    On,
    Invalid { text: String },
}

/// `[elements]`: one rule per element type and the spawn dials.
#[derive(Debug, Clone, PartialEq)]
pub struct ElementsConfig {
    pub water: ElementRule,
    pub chow: ElementRule,
    pub bug: ElementRule,
    pub greeble: ElementRule,
    pub sunbeam: ElementRule,
    /// How many candidate tiles a spawn considers before choosing.
    pub spread_candidates: usize,
    /// Timed spawns draw their lifetime as base ± this many ticks.
    pub ttl_jitter: u64,
    pub edge_penalty: EdgePenalty,
}

/// Greebles may be absent entirely; every other type always has at least
/// one instance.
pub open spec fn least_population(kind: ElementType) -> u32 {
    match kind {
        ElementType::Greeble => 0,
        _ => 1,
    }
}

/// The most elements of one type a world of `area` tiles may hold.
pub open spec fn most_population(area: u32) -> u32 {
    (area / TILES_PER_ELEMENT) as u32
}

impl ElementsConfig {
    /// The rule of one element type.
    pub open spec fn rule_for(&self, kind: ElementType) -> ElementRule {
        match kind {
            ElementType::Water => self.water,
            ElementType::Chow => self.chow,
            ElementType::Bug => self.bug,
            ElementType::Greeble => self.greeble,
            ElementType::Sunbeam => self.sunbeam,
        }
    }

    /// The sum of the five minimums, saturating at `u32::MAX`.
    pub open spec fn minimum_sum(&self) -> int {
        let total = self.water.min + self.chow.min + self.bug.min + self.greeble.min
            + self.sunbeam.min;
        if total > u32::MAX {
            u32::MAX as int
        } else {
            total
        }
    }

    pub fn rule(&self, kind: ElementType) -> (r: ElementRule)
        ensures
            r == self.rule_for(kind),
    {
        match kind {
            ElementType::Water => self.water,
            ElementType::Chow => self.chow,
            ElementType::Bug => self.bug,
            ElementType::Greeble => self.greeble,
            ElementType::Sunbeam => self.sunbeam,
        }
    }

    /// Greebles may be absent entirely; every other type must always have
    /// at least one instance so the world is never barren.
    pub fn hard_min(kind: ElementType) -> (n: u32)
        ensures
            n == least_population(kind),
    {
        match kind {
            ElementType::Greeble => 0,
            _ => 1,
        }
    }

    /// One element of a type per `TILES_PER_ELEMENT` tiles.
    pub fn hard_max(area: u32) -> (n: u32)
        ensures
            n == most_population(area),
    {
        area / TILES_PER_ELEMENT
    }

    /// The combined minimums, saturating at `u32::MAX`.
    pub fn total_min(&self) -> (n: u32)
        ensures
            n == self.minimum_sum(),
    {
        let kinds = [
            ElementType::Water,
            ElementType::Chow,
            ElementType::Bug,
            ElementType::Greeble,
            ElementType::Sunbeam,
        ];
        let mut total: u32 = 0;
        let mut i: usize = 0;
        while i < 5
            invariant
                i <= 5,
                kinds@ == crate::element::element_order(),
                total == {
                    let partial = if i == 0 {
                        0int
                    } else if i == 1 {
                        self.water.min as int
                    } else if i == 2 {
                        self.water.min + self.chow.min
                    } else if i == 3 {
                        self.water.min + self.chow.min + self.bug.min
                    } else if i == 4 {
                        self.water.min + self.chow.min + self.bug.min + self.greeble.min
                    } else {
                        self.water.min + self.chow.min + self.bug.min + self.greeble.min
                            + self.sunbeam.min
                    };
                    if partial > u32::MAX {
                        u32::MAX as int
                    } else {
                        partial
                    }
                },
            decreases 5 - i,
        {
            total = total.saturating_add(self.rule(kinds[i]).min);
            i = i + 1;
        }
        total
    }

    /// The shipped population rules and spawn dials.
    pub fn default_elements() -> (e: ElementsConfig)
        ensures
            e.water == (ElementRule { min: 5, max: 10, ttl: None, servings: None, roam_cell: None, dart: false }),
            e.chow == (ElementRule { min: 5, max: 10, ttl: None, servings: Some(5), roam_cell: None, dart: false }),
            e.bug == (ElementRule { min: 3, max: 8, ttl: Some(300), servings: None, roam_cell: None, dart: false }),
            e.greeble == (ElementRule { min: 1, max: 3, ttl: Some(300), servings: None, roam_cell: None, dart: false }),
            e.sunbeam == (ElementRule { min: 3, max: 6, ttl: Some(300), servings: None, roam_cell: None, dart: false }),
            e.spread_candidates == 8,
            e.ttl_jitter == 100,
            e.edge_penalty == EdgePenalty::On,
    {
        ElementsConfig {
            water: ElementRule { min: 5, max: 10, ttl: None, servings: None, roam_cell: None, dart: false },
            chow: ElementRule {
                min: 5,
                max: 10,
                ttl: None,
                servings: Some(5),
                roam_cell: None,
                dart: false,
            },
            bug: ElementRule {
                min: 3,
                max: 8,
                ttl: Some(300),
                servings: None,
                roam_cell: None,
                dart: false,
            },
            greeble: ElementRule {
                min: 1,
                max: 3,
                ttl: Some(300),
                servings: None,
                roam_cell: None,
                dart: false,
            },
            sunbeam: ElementRule {
                min: 3,
                max: 6,
                ttl: Some(300),
                servings: None,
                roam_cell: None,
                dart: false,
            },
            spread_candidates: default_spread_candidates(),
            ttl_jitter: default_ttl_jitter(),
            edge_penalty: EdgePenalty::On,
        }
    }
}

#[derive(Debug, Clone, Copy, PartialEq, Eq, Structural)]
pub struct DurationBounds {
    pub min: u64,
    pub max: u64,
}

impl DurationBounds {
    pub fn new(min: u64, max: u64) -> (b: DurationBounds)
        ensures
            b == (DurationBounds { min, max }),
    {
        DurationBounds { min, max }
    }
}

/// Per-activity duration bounds.
#[derive(Debug, Clone, Copy, PartialEq, Eq, Structural)]
pub struct DurationsConfig {
    pub eat: DurationBounds,
    pub drink: DurationBounds,
    pub play: DurationBounds,
    pub bath: DurationBounds,
    pub sleep: DurationBounds,
    pub cuddle: DurationBounds,
}

/// The durations table as (name, bounds) rows, in its fixed order.
pub open spec fn duration_rows(d: DurationsConfig) -> Seq<(Seq<char>, DurationBounds)> {
    seq![
        ("eat"@, d.eat),
        ("drink"@, d.drink),
        ("play"@, d.play),
        ("bath"@, d.bath),
        ("sleep"@, d.sleep),
        ("cuddle"@, d.cuddle),
    ]
}

impl DurationsConfig {
    pub fn default_durations() -> (d: DurationsConfig)
        ensures
            d.eat == (DurationBounds { min: 2, max: 5 }),
            d.drink == (DurationBounds { min: 2, max: 5 }),
            d.play == (DurationBounds { min: 2, max: 5 }),
            d.bath == (DurationBounds { min: 2, max: 5 }),
            d.sleep == (DurationBounds { min: 3, max: 8 }),
            d.cuddle == (DurationBounds { min: 3, max: 8 }),
    {
        DurationsConfig {
            eat: default_short_activity(),
            drink: default_short_activity(),
            play: default_short_activity(),
            bath: default_short_activity(),
            sleep: default_long_activity(),
            cuddle: default_long_activity(),
        }
    }

    /// Every row of the table with its name.
    pub fn all(&self) -> (rows: [(&'static str, DurationBounds); 6])
        ensures
            forall|i: int|
                0 <= i < 6 ==> (#[trigger] rows@[i]).0@ == duration_rows(*self)[i].0 && rows@[i].1
                    == duration_rows(*self)[i].1,
    {
        [
            ("eat", self.eat),
            ("drink", self.drink),
            ("play", self.play),
            ("bath", self.bath),
            ("sleep", self.sleep),
            ("cuddle", self.cuddle),
        ]
    }
}

/// Which words of the vocabulary are armed.
#[derive(Debug, Clone, Copy, PartialEq, Eq, Structural)]
pub struct VocabularyConfig {
    pub want_eat: bool,
    pub want_drink: bool,
    pub mew: bool,
    pub want_play: bool,
    pub want_cuddle: bool,
    pub purr: bool,
    pub want_bath: bool,
    pub want_sleep: bool,
    pub here_food: bool,
    pub here_water: bool,
    pub here_critter: bool,
    pub here_sunbeam: bool,
    pub chirp: bool,
    pub trill: bool,
    pub ekekek: bool,
}

impl VocabularyConfig {
    /// Whether a message kind's flag is armed; the engine's own patience
    /// word has no flag and is always armed.
    pub open spec fn armed(self, kind: MessageKind) -> bool {
        match kind {
            MessageKind::WantEat => self.want_eat,
            MessageKind::WantDrink => self.want_drink,
            MessageKind::Mew => self.mew,
            MessageKind::WantPlay => self.want_play,
            MessageKind::WantCuddle => self.want_cuddle,
            MessageKind::Purr => self.purr,
            MessageKind::WaitForMe => true,
            MessageKind::WantBath => self.want_bath,
            MessageKind::WantSleep => self.want_sleep,
            MessageKind::HereFood => self.here_food,
            MessageKind::HereWater => self.here_water,
            MessageKind::HereCritter => self.here_critter,
            MessageKind::HereSunbeam => self.here_sunbeam,
            MessageKind::Chirp => self.chirp,
            MessageKind::Trill => self.trill,
            MessageKind::Ekekek => self.ekekek,
        }
    }

    /// The shipped vocabulary: every word armed except the two reserves.
    pub fn default_vocabulary() -> (v: VocabularyConfig)
        ensures
            forall|k: MessageKind|
                v.armed(k) == (k != MessageKind::Trill && k != MessageKind::Ekekek),
    {
        VocabularyConfig {
            want_eat: true,
            want_drink: true,
            mew: true,
            want_play: true,
            want_cuddle: true,
            purr: true,
            want_bath: true,
            want_sleep: true,
            here_food: true,
            here_water: true,
            here_critter: true,
            here_sunbeam: true,
            chirp: true,
            trill: false,
            ekekek: false,
        }
    }

    pub fn enabled(&self, kind: MessageKind) -> (b: bool)
        ensures
            b == self.armed(kind),
    {
        match kind {
            MessageKind::WantEat => self.want_eat,
            MessageKind::WantDrink => self.want_drink,
            MessageKind::Mew => self.mew,
            MessageKind::WantPlay => self.want_play,
            MessageKind::WantCuddle => self.want_cuddle,
            MessageKind::Purr => self.purr,
            MessageKind::WaitForMe => true,
            MessageKind::WantBath => self.want_bath,
            MessageKind::WantSleep => self.want_sleep,
            MessageKind::HereFood => self.here_food,
            MessageKind::HereWater => self.here_water,
            MessageKind::HereCritter => self.here_critter,
            MessageKind::HereSunbeam => self.here_sunbeam,
            MessageKind::Chirp => self.chirp,
            MessageKind::Trill => self.trill,
            MessageKind::Ekekek => self.ekekek,
        }
    }
}

/// Which era of the want law is in force.
#[derive(Debug, Clone, Copy, PartialEq, Eq, Structural)]
pub enum LawEra {
    /// The armed-only want law of the pre-fog worlds.
    PreFog,
    /// The knowledge-gated want law of the fog worlds.
    Fog,
}

/// The configuration the word law reads: the vocabulary flags and the
/// want-law era.
#[derive(Debug, Clone, Copy, PartialEq, Eq, Structural)]
pub struct MeowLaw {
    pub vocabulary: VocabularyConfig,
    pub law_era: LawEra,
}

/// Retention of the event rings.
#[derive(Debug, Clone, Copy, PartialEq, Eq, Structural)]
pub struct EventsConfig {
    pub distress_retention: usize,
    pub activity_retention: usize,
    pub refusal_retention: usize,
}

impl EventsConfig {
    pub fn default_events() -> (e: EventsConfig)
        ensures
            e.distress_retention == 1000,
            e.activity_retention == 1000,
            e.refusal_retention == 6000,
    {
        EventsConfig {
            distress_retention: 1000,
            activity_retention: default_activity_retention(),
            refusal_retention: default_refusal_retention(),
        }
    }
}

#[derive(Debug, Clone, Copy, PartialEq, Eq, Structural)]
pub struct ViewerConfig {
    pub distress_patience_ticks: u64,
}

impl ViewerConfig {
    pub fn default_viewer() -> (v: ViewerConfig)
        ensures
            v.distress_patience_ticks == 60,
    {
        ViewerConfig { distress_patience_ticks: 60 }
    }
}

// ---- integer defaults --------------------------------------------------

pub fn default_purr_min_ticks() -> (t: u64)
    ensures
        t == 8,
{
    8
}

pub fn default_purr_max_ticks() -> (t: u64)
    ensures
        t == 13,
{
    13
}

pub fn default_meow_recent_window_ticks() -> (t: u64)
    ensures
        t == 10,
{
    10
}

pub fn default_bind() -> (s: String)
    ensures
        s@ == "127.0.0.1:8090"@,
{
    String::from_str("127.0.0.1:8090")
}

pub fn default_short_activity() -> (b: DurationBounds)
    ensures
        b == (DurationBounds { min: 2, max: 5 }),
{
    DurationBounds::new(2, 5)
}

pub fn default_long_activity() -> (b: DurationBounds)
    ensures
        b == (DurationBounds { min: 3, max: 8 }),
{
    DurationBounds::new(3, 8)
}

pub fn default_spread_candidates() -> (n: usize)
    ensures
        n == 8,
{
    8
}

pub fn default_ttl_jitter() -> (n: u64)
    ensures
        n == 100,
{
    100
}

pub fn default_chase_patience_ticks() -> (n: u64)
    ensures
        n == 12,
{
    12
}

pub fn default_chase_exclusion_ticks() -> (n: u64)
    ensures
        n == 60,
{
    60
}

pub fn default_solo_play_reach() -> (n: u32)
    ensures
        n == 8,
{
    8
}

pub fn default_sunbeam_reach() -> (n: u32)
    ensures
        n == 8,
{
    8
}

pub fn default_budget_strikes() -> (n: u32)
    ensures
        n == 5,
{
    5
}

pub fn default_bench_ticks() -> (n: u64)
    ensures
        n == 300,
{
    300
}

pub fn default_reply_max_bytes() -> (n: usize)
    ensures
        n == 65536,
{
    65536
}

pub fn default_relaunch_cooldown_ticks() -> (n: u64)
    ensures
        n == 20,
{
    20
}

pub fn default_exchange_timeout_ms() -> (n: u64)
    ensures
        n == 1000,
{
    1000
}

pub fn default_activity_retention() -> (n: usize)
    ensures
        n == 1000,
{
    1000
}

pub fn default_refusal_retention() -> (n: usize)
    ensures
        n == 6000,
{
    6000
}

// ---- validation -------------------------------------------------------

/// The first fault of the `[world]` table, if any.
pub open spec fn world_fault(w: WorldConfig) -> Option<Fault> {
    if w.width == 0 || w.height == 0 {
        Some(
            (
                "[world] width/height"@,
                decimal(w.width as nat) + "x"@ + decimal(w.height as nat),
                "both must be at least 1"@,
            ),
        )
    } else if w.tick_ms == 0 {
        Some(("[world] tick_ms"@, decimal(w.tick_ms as nat), "must be greater than 0"@))
    } else if w.tiles() < TILES_PER_ELEMENT {
        Some(
            (
                "[world] width x height"@,
                decimal(w.tiles() as nat) + " tiles"@,
                "must be at least 32 tiles so each element type can exist"@,
            ),
        )
    } else {
        None
    }
}

/// The world must be non-empty, tick at a positive rate, and hold at least
/// one tile per `TILES_PER_ELEMENT` for each element type's minimum of one.
pub fn validate_world(w: &WorldConfig) -> (r: Result<(), ConfigError>)
    ensures
        r is Ok <==> world_fault(*w) is None,
        r matches Err(e) ==> e.describes(world_fault(*w).unwrap()),
{
    if w.width == 0 || w.height == 0 {
        let mut v = decimal_string(w.width as u64);
        v.append("x");
        push_decimal(&mut v, w.height as u64);
        return Err(fault("[world] width/height", v, "both must be at least 1"));
    }
    if w.tick_ms == 0 {
        return Err(fault("[world] tick_ms", decimal_string(w.tick_ms), "must be greater than 0"));
    }
    let area = w.area();
    if area < TILES_PER_ELEMENT {
        let mut v = decimal_string(area as u64);
        v.append(" tiles");
        return Err(
            fault(
                "[world] width x height",
                v,
                "must be at least 32 tiles so each element type can exist",
            ),
        );
    }
    Ok(())
}

/// The fault of one element type's rule, if any.
pub open spec fn element_rule_fault(kind: ElementType, r: ElementRule, w: WorldConfig) -> Option<Fault> {
    let field = "[elements."@ + kind.name() + "]"@;
    let most = most_population(w.tiles() as u32);
    let least = least_population(kind);
    if r.min < least {
        Some(
            (
                field + " min"@,
                decimal(r.min as nat),
                "must be at least "@ + decimal(least as nat) + " for this element type"@,
            ),
        )
    } else if r.max > most {
        Some(
            (
                field + " max"@,
                decimal(r.max as nat),
                "must be at most "@ + decimal(most as nat) + " (floor(area / 32) for a "@ + decimal(
                    w.width as nat,
                ) + "x"@ + decimal(w.height as nat) + " world)"@,
            ),
        )
    } else if r.min > r.max {
        Some(
            (
                field + " min"@,
                decimal(r.min as nat),
                "must not exceed max ("@ + decimal(r.max as nat) + ")"@,
            ),
        )
    } else if kind == ElementType::Chow && (r.servings is None || r.servings == Some(0u32)) {
        Some(("[elements.chow] servings"@, decimal(0nat), "must be at least 1"@))
    } else if r.ttl == Some(0u64) {
        Some(
            (
                field + " ttl"@,
                "0"@,
                "must be at least 1 tick, or omitted for a permanent element"@,
            ),
        )
    } else if r.roam_cell is Some && kind != ElementType::Bug {
        Some(
            (
                field + " roam_cell"@,
                decimal(r.roam_cell.unwrap() as nat),
                "only bugs are tethered; remove this key"@,
            ),
        )
    } else if r.roam_cell is Some && r.roam_cell.unwrap() < 2 {
        Some(
            (
                field + " roam_cell"@,
                decimal(r.roam_cell.unwrap() as nat),
                "must be at least 2 tiles; a 1-tile cell would immobilize every bug"@,
            ),
        )
    } else if r.dart && kind != ElementType::Greeble {
        Some(
            (
                field + " dart"@,
                "true"@,
                "only greebles take the dart schedule; remove this key"@,
            ),
        )
    } else {
        None
    }
}

/// The first faulty rule at or after position `i` of the element order.
pub open spec fn element_rules_fault_from(e: ElementsConfig, w: WorldConfig, i: int) -> Option<Fault>
    decreases 5 - i,
{
    if i < 0 || i >= 5 {
        None
    } else {
        let kind = crate::element::element_order()[i];
        match element_rule_fault(kind, e.rule_for(kind), w) {
            Some(f) => Some(f),
            None => element_rules_fault_from(e, w, i + 1),
        }
    }
}

/// The first fault of the `[elements]` table, if any: the per-type rules
/// in element order, then the spawn dials, then the lake's need for a 2x2
/// world.
pub open spec fn elements_fault(e: ElementsConfig, w: WorldConfig) -> Option<Fault> {
    match element_rules_fault_from(e, w, 0) {
        Some(f) => Some(f),
        None => if e.ttl_jitter > 2147483646 {
            Some(
                (
                    "[elements] ttl_jitter"@,
                    decimal(e.ttl_jitter as nat),
                    "must fit the RNG's 32-bit draw (at most 2147483646)"@,
                ),
            )
        } else if e.spread_candidates < 1 {
            Some(
                (
                    "[elements] spread_candidates"@,
                    decimal(e.spread_candidates as nat),
                    "must be at least 1 (a spawn needs at least one candidate tile)"@,
                ),
            )
        } else if e.spread_candidates > 10000 {
            Some(
                (
                    "[elements] spread_candidates"@,
                    decimal(e.spread_candidates as nat),
                    "must be at most 10000 -- candidates are drawn per spawn, and more than any plausible world has tiles is a config error, refused here rather than discovered as a hang at spawn time"@,
                ),
            )
        } else if e.edge_penalty is Invalid {
            Some(
                (
                    "[elements] edge_penalty"@,
                    e.edge_penalty->text@,
                    "must be a finite number of tiles >= 0 (0 disables the interior preference)"@,
                ),
            )
        } else if e.water.min >= 4 && (w.width < 2 || w.height < 2) {
            Some(
                (
                    "[world] width/height"@,
                    decimal(w.width as nat) + "x"@ + decimal(w.height as nat),
                    "a water minimum of 4+ guarantees a 2x2 lake, which needs a 2x2 world"@,
                ),
            )
        } else {
            None
        }
    }
}

/// The elements table is accepted exactly when every one of the five
/// element types' rules is sound (its minimum at least the type's least
/// population, its maximum within one per 32 tiles of the world, minimum
/// not above maximum, bowls holding at least one serving, no zero
/// lifetime, a roam cell only on bugs and of at least 2 tiles, the dart
/// schedule only on greebles), the lifetime jitter fits a 32-bit draw,
/// a spawn weighs between 1 and 10000 candidates, the edge penalty is a
/// usable number, and a water minimum of four or more has a 2x2 world.
pub proof fn lemma_elements_accepted_exactly_when_every_rule_is_sound(e: ElementsConfig, w: WorldConfig)
    ensures
        elements_fault(e, w) is None <==> {
            &&& forall|i: int|
                0 <= i < 5 ==> {
                    let k = #[trigger] crate::element::element_order()[i];
                    let r = e.rule_for(k);
                    &&& r.min >= (if k == ElementType::Greeble { 0u32 } else { 1u32 })
                    &&& r.max <= w.tiles() as u32 / TILES_PER_ELEMENT
                    &&& r.min <= r.max
                    &&& k == ElementType::Chow ==> (r.servings matches Some(n) && n >= 1)
                    &&& r.ttl != Some(0u64)
                    &&& r.roam_cell matches Some(c) ==> k == ElementType::Bug && c >= 2
                    &&& r.dart ==> k == ElementType::Greeble
                }
            &&& e.ttl_jitter <= 2147483646
            &&& 1 <= e.spread_candidates <= 10000
            &&& !(e.edge_penalty is Invalid)
            &&& e.water.min >= 4 ==> w.width >= 2 && w.height >= 2
        },
{
    reveal_with_fuel(element_rules_fault_from, 6);
    let order = crate::element::element_order();
    assert(order[0] == ElementType::Water && order[1] == ElementType::Chow && order[2] == ElementType::Bug
        && order[3] == ElementType::Greeble && order[4] == ElementType::Sunbeam);
}

/// The fault of one element type's rule, reported as an error.
fn check_element_rule(kind: ElementType, r: ElementRule, w: &WorldConfig, hard_max: u32) -> (res: Result<
    (),
    ConfigError,
>)
    requires
        hard_max == most_population(w.tiles() as u32),
    ensures
        res is Ok <==> element_rule_fault(kind, r, *w) is None,
        res matches Err(e) ==> e.describes(element_rule_fault(kind, r, *w).unwrap()),
{
    let hard_min = ElementsConfig::hard_min(kind);
    let mut field = String::from_str("[elements.");
    field.append(kind.as_str());
    field.append("]");
    proof {
        reveal_strlit("[elements.");
        reveal_strlit("]");
    }
    let ghost base = field@;
    if r.min < hard_min {
        field.append(" min");
        let mut expected = String::from_str("must be at least ");
        push_decimal(&mut expected, hard_min as u64);
        expected.append(" for this element type");
        return Err(ConfigError::invalid(field, decimal_string(r.min as u64), expected));
    }
    if r.max > hard_max {
        field.append(" max");
        let mut expected = String::from_str("must be at most ");
        push_decimal(&mut expected, hard_max as u64);
        expected.append(" (floor(area / 32) for a ");
        push_decimal(&mut expected, w.width as u64);
        expected.append("x");
        push_decimal(&mut expected, w.height as u64);
        expected.append(" world)");
        return Err(ConfigError::invalid(field, decimal_string(r.max as u64), expected));
    }
    if r.min > r.max {
        field.append(" min");
        let mut expected = String::from_str("must not exceed max (");
        push_decimal(&mut expected, r.max as u64);
        expected.append(")");
        return Err(ConfigError::invalid(field, decimal_string(r.min as u64), expected));
    }
    if kind == ElementType::Chow {
        let servings: u32 = match r.servings {
            Some(n) => n,
            None => 0,
        };
        if servings == 0 {
            return Err(fault("[elements.chow] servings", decimal_string(0), "must be at least 1"));
        }
    }
    if r.ttl == Some(0u64) {
        field.append(" ttl");
        return Err(
            ConfigError::invalid(
                field,
                String::from_str("0"),
                String::from_str("must be at least 1 tick, or omitted for a permanent element"),
            ),
        );
    }
    if let Some(cell) = r.roam_cell {
        if kind != ElementType::Bug {
            field.append(" roam_cell");
            return Err(
                ConfigError::invalid(
                    field,
                    decimal_string(cell as u64),
                    String::from_str("only bugs are tethered; remove this key"),
                ),
            );
        }
        if cell < 2 {
            field.append(" roam_cell");
            return Err(
                ConfigError::invalid(
                    field,
                    decimal_string(cell as u64),
                    String::from_str("must be at least 2 tiles; a 1-tile cell would immobilize every bug"),
                ),
            );
        }
    }
    if r.dart && kind != ElementType::Greeble {
        field.append(" dart");
        return Err(
            ConfigError::invalid(
                field,
                String::from_str("true"),
                String::from_str("only greebles take the dart schedule; remove this key"),
            ),
        );
    }
    Ok(())
}

/// Every element type's population and lifetime rule holds, the spawn
/// dials are in range, the interior preference is a usable number, and a
/// world promised a lake can hold one.
pub fn validate_elements(e: &ElementsConfig, w: &WorldConfig) -> (r: Result<(), ConfigError>)
    ensures
        r is Ok <==> elements_fault(*e, *w) is None,
        r matches Err(err) ==> err.describes(elements_fault(*e, *w).unwrap()),
{
    let area = w.area();
    let hard_max = ElementsConfig::hard_max(area);
    let kinds = [
        ElementType::Water,
        ElementType::Chow,
        ElementType::Bug,
        ElementType::Greeble,
        ElementType::Sunbeam,
    ];
    let mut i: usize = 0;
    while i < 5
        invariant
            i <= 5,
            kinds@ == crate::element::element_order(),
            hard_max == most_population(w.tiles() as u32),
            element_rules_fault_from(*e, *w, 0) == element_rules_fault_from(*e, *w, i as int),
        decreases 5 - i,
    {
        let kind = kinds[i];
        match check_element_rule(kind, e.rule(kind), w, hard_max) {
            Err(err) => {
                return Err(err);
            },
            Ok(()) => {},
        }
        i = i + 1;
    }
    if e.ttl_jitter > 2147483646 {
        return Err(
            fault(
                "[elements] ttl_jitter",
                decimal_string(e.ttl_jitter),
                "must fit the RNG's 32-bit draw (at most 2147483646)",
            ),
        );
    }
    if e.spread_candidates < 1 {
        return Err(
            fault(
                "[elements] spread_candidates",
                decimal_string(e.spread_candidates as u64),
                "must be at least 1 (a spawn needs at least one candidate tile)",
            ),
        );
    }
    if e.spread_candidates > 10000 {
        return Err(
            fault(
                "[elements] spread_candidates",
                decimal_string(e.spread_candidates as u64),
                "must be at most 10000 -- candidates are drawn per spawn, and more than any plausible world has tiles is a config error, refused here rather than discovered as a hang at spawn time",
            ),
        );
    }
    if let EdgePenalty::Invalid { text } = &e.edge_penalty {
        return Err(
            ConfigError::invalid(
                String::from_str("[elements] edge_penalty"),
                text.clone(),
                String::from_str(
                    "must be a finite number of tiles >= 0 (0 disables the interior preference)",
                ),
            ),
        );
    }
    if e.water.min >= 4 && (w.width < 2 || w.height < 2) {
        let mut v = decimal_string(w.width as u64);
        v.append("x");
        push_decimal(&mut v, w.height as u64);
        return Err(
            fault(
                "[world] width/height",
                v,
                "a water minimum of 4+ guarantees a 2x2 lake, which needs a 2x2 world",
            ),
        );
    }
    Ok(())
}

/// The first fault of the purr's tick bounds, if any: a purr lasts at
/// least a tick, its minimum does not exceed its maximum, and the maximum
/// stays small enough for exact cooldown arithmetic.
pub open spec fn purr_ticks_fault(min_ticks: u64, max_ticks: u64) -> Option<Fault> {
    if min_ticks < 1 {
        Some(("[purr] min_ticks"@, decimal(min_ticks as nat), "must be at least 1"@))
    } else if min_ticks > max_ticks {
        Some(
            (
                "[purr] min_ticks"@,
                decimal(min_ticks as nat) + " (max_ticks is "@ + decimal(max_ticks as nat) + ")"@,
                "must be at most max_ticks"@,
            ),
        )
    } else if max_ticks > 1000000 {
        Some(
            (
                "[purr] max_ticks"@,
                decimal(max_ticks as nat),
                "must be at most 1000000 (keeps the cooldown arithmetic exact)"@,
            ),
        )
    } else {
        None
    }
}

/// The integer rows of `[purr]`: its tick bounds.
pub fn validate_purr_ticks(min_ticks: u64, max_ticks: u64) -> (r: Result<(), ConfigError>)
    ensures
        r is Ok <==> purr_ticks_fault(min_ticks, max_ticks) is None,
        r matches Err(e) ==> e.describes(purr_ticks_fault(min_ticks, max_ticks).unwrap()),
{
    if min_ticks < 1 {
        return Err(fault("[purr] min_ticks", decimal_string(min_ticks), "must be at least 1"));
    }
    if min_ticks > max_ticks {
        let mut v = decimal_string(min_ticks);
        v.append(" (max_ticks is ");
        push_decimal(&mut v, max_ticks);
        v.append(")");
        return Err(fault("[purr] min_ticks", v, "must be at most max_ticks"));
    }
    if max_ticks > 1000000 {
        return Err(
            fault(
                "[purr] max_ticks",
                decimal_string(max_ticks),
                "must be at most 1000000 (keeps the cooldown arithmetic exact)",
            ),
        );
    }
    Ok(())
}

/// The first fault of the meow windows, if any: the per-kind cooldown is at
/// least a tick, and the digest window is a positive whole multiple of it.
pub open spec fn meow_windows_fault(recent: u64, digest: u64) -> Option<Fault> {
    if recent < 1 {
        Some(
            (
                "[meow] recent_window_ticks"@,
                decimal(recent as nat),
                "must be at least 1 -- the per-kind emission cooldown"@,
            ),
        )
    } else if digest == 0 || digest % recent != 0 {
        Some(
            (
                "[meow] digest_window_ticks"@,
                decimal(digest as nat),
                "must be a positive integer multiple of [meow] recent_window_ticks ("@ + decimal(
                    recent as nat,
                ) + ") -- the rate cell counts calls per window / cooldown"@,
            ),
        )
    } else {
        None
    }
}

/// The integer rows of `[meow]`: the cooldown and digest windows.
pub fn validate_meow_windows(recent: u64, digest: u64) -> (r: Result<(), ConfigError>)
    ensures
        r is Ok <==> meow_windows_fault(recent, digest) is None,
        r matches Err(e) ==> e.describes(meow_windows_fault(recent, digest).unwrap()),
{
    if recent < 1 {
        return Err(
            fault(
                "[meow] recent_window_ticks",
                decimal_string(recent),
                "must be at least 1 -- the per-kind emission cooldown",
            ),
        );
    }
    if digest == 0 || digest % recent != 0 {
        let mut expected = String::from_str(
            "must be a positive integer multiple of [meow] recent_window_ticks (",
        );
        push_decimal(&mut expected, recent);
        expected.append(") -- the rate cell counts calls per window / cooldown");
        return Err(
            ConfigError::invalid(
                String::from_str("[meow] digest_window_ticks"),
                decimal_string(digest),
                expected,
            ),
        );
    }
    Ok(())
}

/// The whole-number dials of `[behavior]`, each of which must be nonzero.
#[derive(Debug, Clone, Copy, PartialEq, Eq, Structural)]
pub struct BehaviorLimits {
    pub chase_patience_ticks: u64,
    pub chase_exclusion_ticks: u64,
    pub solo_play_reach: u32,
    pub sunbeam_reach: u32,
    pub budget_strikes: u32,
    pub bench_ticks: u64,
    pub reply_max_bytes: usize,
    pub relaunch_cooldown_ticks: u64,
    pub exchange_timeout_ms: u64,
}

/// The nonzero-bounded rows of `[behavior]`, in table order: the field, its
/// value, and what is expected of it.
pub open spec fn behavior_limit_rows(b: BehaviorLimits) -> Seq<(Seq<char>, int, Seq<char>)> {
    seq![
        ("[behavior] chase_patience_ticks"@, b.chase_patience_ticks as int, "must be at least 1 tick"@),
        ("[behavior] chase_exclusion_ticks"@, b.chase_exclusion_ticks as int, "must be at least 1 tick"@),
        ("[behavior] solo_play_reach"@, b.solo_play_reach as int, "must be at least 1 tile"@),
        ("[behavior] sunbeam_reach"@, b.sunbeam_reach as int, "must be at least 1 tile"@),
        (
            "[behavior] budget_strikes"@,
            b.budget_strikes as int,
            "must be at least 1 (an advisor gets at least one timed slot)"@,
        ),
        (
            "[behavior] bench_ticks"@,
            b.bench_ticks as int,
            "must be at least 1 tick (a bench must last long enough to exist)"@,
        ),
        (
            "[behavior] reply_max_bytes"@,
            b.reply_max_bytes as int,
            "must be at least 1 byte (a plugin must be allowed to answer)"@,
        ),
        (
            "[behavior] relaunch_cooldown_ticks"@,
            b.relaunch_cooldown_ticks as int,
            "must be at least 1 tick (unbounded respawn would be a spawn storm)"@,
        ),
        (
            "[behavior] exchange_timeout_ms"@,
            b.exchange_timeout_ms as int,
            "must be at least 1 ms (a plugin must have a moment to answer)"@,
        ),
    ]
}

/// The first zero row at or after row `i`.
pub open spec fn limits_fault_from(rows: Seq<(Seq<char>, int, Seq<char>)>, i: int) -> Option<Fault>
    decreases rows.len() - i,
{
    if i < 0 || i >= rows.len() {
        None
    } else if rows[i].1 == 0 {
        Some((rows[i].0, "0"@, rows[i].2))
    } else {
        limits_fault_from(rows, i + 1)
    }
}

/// The whole-number dials of `[behavior]` are accepted exactly when every
/// one of the nine is nonzero.
pub proof fn lemma_behavior_limits_accepted_exactly_when_all_nonzero(b: BehaviorLimits)
    ensures
        limits_fault_from(behavior_limit_rows(b), 0) is None <==> {
            &&& b.chase_patience_ticks > 0
            &&& b.chase_exclusion_ticks > 0
            &&& b.solo_play_reach > 0
            &&& b.sunbeam_reach > 0
            &&& b.budget_strikes > 0
            &&& b.bench_ticks > 0
            &&& b.reply_max_bytes > 0
            &&& b.relaunch_cooldown_ticks > 0
            &&& b.exchange_timeout_ms > 0
        },
{
    reveal_with_fuel(limits_fault_from, 10);
    assert(behavior_limit_rows(b).len() == 9);
}

/// The whole-number rows of `[behavior]`: every window, reach, strike
/// count, byte budget and timeout is at least one.
pub fn validate_behavior_limits(b: &BehaviorLimits) -> (r: Result<(), ConfigError>)
    ensures
        r is Ok <==> limits_fault_from(behavior_limit_rows(*b), 0) is None,
        r matches Err(e) ==> e.describes(limits_fault_from(behavior_limit_rows(*b), 0).unwrap()),
{
    let rows: [(&str, u64, &str); 9] = [
        ("[behavior] chase_patience_ticks", b.chase_patience_ticks, "must be at least 1 tick"),
        ("[behavior] chase_exclusion_ticks", b.chase_exclusion_ticks, "must be at least 1 tick"),
        ("[behavior] solo_play_reach", b.solo_play_reach as u64, "must be at least 1 tile"),
        ("[behavior] sunbeam_reach", b.sunbeam_reach as u64, "must be at least 1 tile"),
        (
            "[behavior] budget_strikes",
            b.budget_strikes as u64,
            "must be at least 1 (an advisor gets at least one timed slot)",
        ),
        (
            "[behavior] bench_ticks",
            b.bench_ticks,
            "must be at least 1 tick (a bench must last long enough to exist)",
        ),
        (
            "[behavior] reply_max_bytes",
            b.reply_max_bytes as u64,
            "must be at least 1 byte (a plugin must be allowed to answer)",
        ),
        (
            "[behavior] relaunch_cooldown_ticks",
            b.relaunch_cooldown_ticks,
            "must be at least 1 tick (unbounded respawn would be a spawn storm)",
        ),
        (
            "[behavior] exchange_timeout_ms",
            b.exchange_timeout_ms,
            "must be at least 1 ms (a plugin must have a moment to answer)",
        ),
    ];
    let ghost spec_rows = behavior_limit_rows(*b);
    let mut i: usize = 0;
    while i < 9
        invariant
            i <= 9,
            spec_rows == behavior_limit_rows(*b),
            forall|j: int|
                0 <= j < 9 ==> (#[trigger] rows@[j]).0@ == spec_rows[j].0 && rows@[j].1 as int
                    == spec_rows[j].1 && rows@[j].2@ == spec_rows[j].2,
            limits_fault_from(spec_rows, 0) == limits_fault_from(spec_rows, i as int),
        decreases 9 - i,
    {
        let (field, value, expected) = rows[i];
        if value == 0 {
            return Err(fault(field, String::from_str("0"), expected));
        }
        i = i + 1;
    }
    Ok(())
}

/// The fault of `[vision]`, if any: the disc reaches at least two tiles.
pub open spec fn vision_fault(radius: u32) -> Option<Fault> {
    if radius < 2 {
        Some(
            (
                "[vision] radius"@,
                decimal(radius as nat),
                "must be at least 2 -- adjacency (r >= 1) and the yield rule's Manhattan-2 friend must be inside the disc"@,
            ),
        )
    } else {
        None
    }
}

/// The vision disc reaches at least two tiles: adjacency and the yield
/// rule's friend two steps away must both be inside it.
pub fn validate_vision(radius: u32) -> (r: Result<(), ConfigError>)
    ensures
        r is Ok <==> vision_fault(radius) is None,
        r matches Err(e) ==> e.describes(vision_fault(radius).unwrap()),
{
    if radius < 2 {
        return Err(
            fault(
                "[vision] radius",
                decimal_string(radius as u64),
                "must be at least 2 -- adjacency (r >= 1) and the yield rule's Manhattan-2 friend must be inside the disc",
            ),
        );
    }
    Ok(())
}

/// The fault of one duration row, if any: every activity runs at least one
/// tick, and its maximum is at least its minimum.
pub open spec fn duration_fault(name: Seq<char>, b: DurationBounds) -> Option<Fault> {
    if b.min < 1 {
        Some(
            (
                "[actions.durations] "@ + name + ".min"@,
                decimal(b.min as nat),
                "an activity runs at least 1 tick (1 <= min <= max)"@,
            ),
        )
    } else if b.max < b.min {
        Some(
            (
                "[actions.durations] "@ + name + ".max"@,
                decimal(b.max as nat),
                "must be at least "@ + name + ".min ("@ + decimal(b.min as nat) + ")"@,
            ),
        )
    } else {
        None
    }
}

/// The first faulty row at or after row `i`, in table order.
pub open spec fn durations_fault_from(rows: Seq<(Seq<char>, DurationBounds)>, i: int) -> Option<
    Fault,
>
    decreases rows.len() - i,
{
    if i < 0 || i >= rows.len() {
        None
    } else {
        match duration_fault(rows[i].0, rows[i].1) {
            Some(f) => Some(f),
            None => durations_fault_from(rows, i + 1),
        }
    }
}

pub open spec fn durations_fault(d: DurationsConfig) -> Option<Fault> {
    durations_fault_from(duration_rows(d), 0)
}

/// The durations table is accepted exactly when each of its six
/// activities (eat, drink, play, bath, sleep, cuddle) runs at least one
/// tick and its minimum does not exceed its maximum; when it is refused,
/// the first offending activity in that order is named.
pub proof fn lemma_durations_accepted_exactly_when_every_row_is_ordered(d: DurationsConfig)
    ensures
        durations_fault(d) is None <==> {
            &&& 1 <= d.eat.min <= d.eat.max
            &&& 1 <= d.drink.min <= d.drink.max
            &&& 1 <= d.play.min <= d.play.max
            &&& 1 <= d.bath.min <= d.bath.max
            &&& 1 <= d.sleep.min <= d.sleep.max
            &&& 1 <= d.cuddle.min <= d.cuddle.max
        },
        !(1 <= d.eat.min <= d.eat.max) ==> durations_fault(d) == duration_fault("eat"@, d.eat),
        (1 <= d.eat.min <= d.eat.max && 1 <= d.drink.min <= d.drink.max && 1 <= d.play.min
            <= d.play.max && 1 <= d.bath.min <= d.bath.max && 1 <= d.sleep.min <= d.sleep.max
            && !(1 <= d.cuddle.min <= d.cuddle.max)) ==> durations_fault(d) == duration_fault(
            "cuddle"@,
            d.cuddle,
        ),
{
    reveal_with_fuel(durations_fault_from, 7);
    let rows = duration_rows(d);
    assert(rows.len() == 6);
    assert(rows[0] == ("eat"@, d.eat));
    assert(rows[1] == ("drink"@, d.drink));
    assert(rows[2] == ("play"@, d.play));
    assert(rows[3] == ("bath"@, d.bath));
    assert(rows[4] == ("sleep"@, d.sleep));
    assert(rows[5] == ("cuddle"@, d.cuddle));
}

/// Every activity's bounds satisfy `1 <= min <= max`.
pub fn validate_durations(d: &DurationsConfig) -> (r: Result<(), ConfigError>)
    ensures
        r is Ok <==> durations_fault(*d) is None,
        r matches Err(e) ==> e.describes(durations_fault(*d).unwrap()),
{
    let rows = d.all();
    let ghost spec_rows = duration_rows(*d);
    let mut i: usize = 0;
    while i < 6
        invariant
            i <= 6,
            spec_rows == duration_rows(*d),
            forall|j: int|
                0 <= j < 6 ==> (#[trigger] rows@[j]).0@ == spec_rows[j].0 && rows@[j].1
                    == spec_rows[j].1,
            durations_fault_from(spec_rows, 0) == durations_fault_from(spec_rows, i as int),
        decreases 6 - i,
    {
        let (name, bounds) = rows[i];
        assert(name@ == spec_rows[i as int].0);
        if bounds.min < 1 {
            let mut field = String::from_str("[actions.durations] ");
            field.append(name);
            field.append(".min");
            return Err(
                ConfigError::invalid(
                    field,
                    decimal_string(bounds.min),
                    String::from_str("an activity runs at least 1 tick (1 <= min <= max)"),
                ),
            );
        }
        if bounds.max < bounds.min {
            let mut field = String::from_str("[actions.durations] ");
            field.append(name);
            field.append(".max");
            let mut expected = String::from_str("must be at least ");
            expected.append(name);
            expected.append(".min (");
            push_decimal(&mut expected, bounds.min);
            expected.append(")");
            return Err(ConfigError::invalid(field, decimal_string(bounds.max), expected));
        }
        i = i + 1;
    }
    Ok(())
}

/// The fields of a `[[kitty]]` roster entry that the roster rules read.
#[derive(Debug, Clone, PartialEq)]
pub struct RosterEntry {
    pub id: KittyId,
    pub name: String,
    pub x: u32,
    pub y: u32,
    pub behavior: String,
}

/// A roster entry as plain values: id, name, x, y, behavior.
pub type Seat = (KittyId, Seq<char>, u32, u32, Seq<char>);

impl RosterEntry {
    pub open spec fn seat(&self) -> Seat {
        (self.id, self.name@, self.x, self.y, self.behavior@)
    }

    pub fn position(&self) -> (p: Position)
        ensures
            p == (Position { x: self.x, y: self.y }),
    {
        Position::new(self.x, self.y)
    }
}

pub open spec fn seats(kitties: Seq<RosterEntry>) -> Seq<Seat> {
    kitties.map_values(|k: RosterEntry| k.seat())
}

/// The roster-entry field naming a kitty: `[[kitty]] '<name><suffix>`.
pub open spec fn seat_field(name: Seq<char>, suffix: Seq<char>) -> Seq<char> {
    "[[kitty]] '"@ + name + suffix
}

/// `(x, y)`.
pub open spec fn coords(x: u32, y: u32) -> Seq<char> {
    "("@ + decimal(x as nat) + ", "@ + decimal(y as nat) + ")"@
}

/// The fault of seat `i`, given the seats before it.
pub open spec fn seat_fault(w: WorldConfig, s: Seq<Seat>, i: int) -> Option<Fault> {
    let (id, name, x, y, behavior) = s[i];
    if exists|j: int| 0 <= j < i && #[trigger] s[j].0 == id {
        Some(("[[kitty]] id"@, decimal(id as nat), "kitty ids must be unique"@))
    } else if id == RESERVED_KITTY_ID {
        Some(
            (
                "[[kitty]] id"@,
                decimal(id as nat),
                "this id is reserved (downstream encodings use it to mean \"no kitty\", so no live kitty may ever carry it)"@,
            ),
        )
    } else if !(x < w.width && y < w.height) {
        Some(
            (
                seat_field(name, "' position"@),
                coords(x, y),
                "must be within the world: x in 0.."@ + decimal(w.width as nat) + ", y in 0.."@
                    + decimal(w.height as nat),
            ),
        )
    } else if exists|j: int| 0 <= j < i && #[trigger] s[j].2 == x && s[j].3 == y {
        Some((seat_field(name, "' position"@), coords(x, y), "two kitties may not start on the same tile"@))
    } else if blank(behavior) {
        Some(
            (
                seat_field(name, "' behavior"@),
                "empty"@,
                "must name a registered behavior, e.g. \"needs_driven\""@,
            ),
        )
    } else {
        None
    }
}

/// The first faulty seat at or after seat `i`.
pub open spec fn seats_fault_from(w: WorldConfig, s: Seq<Seat>, i: int) -> Option<Fault>
    decreases s.len() - i,
{
    if i < 0 || i >= s.len() {
        None
    } else {
        match seat_fault(w, s, i) {
            Some(f) => Some(f),
            None => seats_fault_from(w, s, i + 1),
        }
    }
}

/// The first fault of the roster: too few kitties, then the first faulty
/// seat in roster order.
pub open spec fn roster_fault(w: WorldConfig, s: Seq<Seat>) -> Option<Fault> {
    if s.len() < 2 {
        Some(
            (
                "[[kitty]] roster"@,
                decimal(s.len()) + " kitties"@,
                "the constitution requires at least 2 kitties (Article III: kitties cannot be alone)"@,
            ),
        )
    } else {
        seats_fault_from(w, s, 0)
    }
}

/// The scan from seat `i` finds no fault exactly when no seat from `i` on
/// has one.
proof fn lemma_seat_scan(w: WorldConfig, s: Seq<Seat>, i: int)
    requires
        0 <= i <= s.len(),
    ensures
        seats_fault_from(w, s, i) is None <==> forall|k: int| i <= k < s.len() ==> #[trigger] seat_fault(w, s, k) is None,
    decreases s.len() - i,
{
    if i < s.len() {
        lemma_seat_scan(w, s, i + 1);
    }
}

/// The roster is accepted exactly when it seats at least two kitties, no
/// two of them share an id or a starting tile, none carries the reserved
/// id, every one starts inside the world, and every one names a behavior.
pub proof fn lemma_roster_accepted_exactly_when_seats_are_sound(w: WorldConfig, s: Seq<Seat>)
    ensures
        roster_fault(w, s) is None <==> {
            &&& s.len() >= 2
            &&& forall|a: int, b: int| 0 <= a < b < s.len() ==> (#[trigger] s[a]).0 != (#[trigger] s[b]).0
            &&& forall|a: int, b: int|
                0 <= a < b < s.len() ==> !((#[trigger] s[a]).2 == (#[trigger] s[b]).2 && s[a].3 == s[b].3)
            &&& forall|k: int|
                0 <= k < s.len() ==> (#[trigger] s[k]).0 != RESERVED_KITTY_ID && s[k].2 < w.width && s[k].3
                    < w.height && !blank(s[k].4)
        },
{
    if s.len() >= 2 {
        lemma_seat_scan(w, s, 0);
        if seats_fault_from(w, s, 0) is None {
            assert forall|a: int, b: int| 0 <= a < b < s.len() implies (#[trigger] s[a]).0 != (#[trigger] s[b]).0 by {
                assert(seat_fault(w, s, b) is None);
            }
            assert forall|a: int, b: int|
                0 <= a < b < s.len() implies !((#[trigger] s[a]).2 == (#[trigger] s[b]).2 && s[a].3 == s[b].3) by {
                assert(seat_fault(w, s, b) is None);
            }
            assert forall|k: int| 0 <= k < s.len() implies (#[trigger] s[k]).0 != RESERVED_KITTY_ID && s[k].2
                < w.width && s[k].3 < w.height && !blank(s[k].4) by {
                assert(seat_fault(w, s, k) is None);
            }
        }
        if (forall|a: int, b: int| 0 <= a < b < s.len() ==> (#[trigger] s[a]).0 != (#[trigger] s[b]).0) && (forall|
            a: int,
            b: int,
        | 0 <= a < b < s.len() ==> !((#[trigger] s[a]).2 == (#[trigger] s[b]).2 && s[a].3 == s[b].3)) && (forall|
            k: int,
        | 0 <= k < s.len() ==> (#[trigger] s[k]).0 != RESERVED_KITTY_ID && s[k].2 < w.width && s[k].3 < w.height
            && !blank(s[k].4)) {
            assert forall|k: int| 0 <= k < s.len() implies #[trigger] seat_fault(w, s, k) is None by {
                assert(!(exists|j: int| 0 <= j < k && #[trigger] s[j].0 == s[k].0));
                assert(!(exists|j: int| 0 <= j < k && #[trigger] s[j].2 == s[k].2 && s[j].3 == s[k].3));
            }
        }
    }
}

/// Kitties cannot be alone: at least two kitties, with unique ids (none
/// of them the reserved id), distinct starting tiles inside the world, and
/// a behavior named for each.
pub fn validate_roster(w: &WorldConfig, kitties: &[RosterEntry]) -> (r: Result<(), ConfigError>)
    requires
        kitties@.len() <= u64::MAX,
    ensures
        r is Ok <==> roster_fault(*w, seats(kitties@)) is None,
        r matches Err(e) ==> e.describes(roster_fault(*w, seats(kitties@)).unwrap()),
{
    let ghost s = seats(kitties@);
    let n = kitties.len();
    if n < 2 {
        let mut v = decimal_string(n as u64);
        v.append(" kitties");
        return Err(
            fault(
                "[[kitty]] roster",
                v,
                "the constitution requires at least 2 kitties (Article III: kitties cannot be alone)",
            ),
        );
    }
    let mut i: usize = 0;
    while i < n
        invariant
            n == kitties@.len(),
            s == seats(kitties@),
            s.len() == n,
            i <= n,
            roster_fault(*w, s) == seats_fault_from(*w, s, i as int),
        decreases n - i,
    {
        let k = &kitties[i];
        assert(s[i as int] == k.seat());
        let mut dup_id = false;
        let mut dup_pos = false;
        let mut j: usize = 0;
        while j < i
            invariant
                i < n,
                n == kitties@.len(),
                s == seats(kitties@),
                s.len() == n,
                k == &kitties@[i as int],
                j <= i,
                dup_id == (exists|m: int| 0 <= m < j && #[trigger] s[m].0 == k.id),
                dup_pos == (exists|m: int| 0 <= m < j && #[trigger] s[m].2 == k.x && s[m].3 == k.y),
            decreases i - j,
        {
            let other = &kitties[j];
            assert(s[j as int] == other.seat());
            assert(s[j as int].0 == other.id && s[j as int].2 == other.x && s[j as int].3
                == other.y);
            if other.id == k.id {
                dup_id = true;
            }
            if other.x == k.x && other.y == k.y {
                dup_pos = true;
            }
            j = j + 1;
        }
        if dup_id {
            return Err(fault("[[kitty]] id", decimal_string(k.id as u64), "kitty ids must be unique"));
        }
        if k.id == RESERVED_KITTY_ID {
            return Err(
                fault(
                    "[[kitty]] id",
                    decimal_string(k.id as u64),
                    "this id is reserved (downstream encodings use it to mean \"no kitty\", so no live kitty may ever carry it)",
                ),
            );
        }
        if !k.position().in_bounds(w.width, w.height) {
            let mut field = String::from_str("[[kitty]] '");
            field.append(k.name.as_str());
            field.append("' position");
            let mut v = String::from_str("(");
            push_decimal(&mut v, k.x as u64);
            v.append(", ");
            push_decimal(&mut v, k.y as u64);
            v.append(")");
            let mut expected = String::from_str("must be within the world: x in 0..");
            push_decimal(&mut expected, w.width as u64);
            expected.append(", y in 0..");
            push_decimal(&mut expected, w.height as u64);
            return Err(ConfigError::invalid(field, v, expected));
        }
        if dup_pos {
            let mut field = String::from_str("[[kitty]] '");
            field.append(k.name.as_str());
            field.append("' position");
            let mut v = String::from_str("(");
            push_decimal(&mut v, k.x as u64);
            v.append(", ");
            push_decimal(&mut v, k.y as u64);
            v.append(")");
            return Err(
                ConfigError::invalid(
                    field,
                    v,
                    String::from_str("two kitties may not start on the same tile"),
                ),
            );
        }
        if is_blank(k.behavior.as_str()) {
            let mut field = String::from_str("[[kitty]] '");
            field.append(k.name.as_str());
            field.append("' behavior");
            return Err(
                ConfigError::invalid(
                    field,
                    String::from_str("empty"),
                    String::from_str("must name a registered behavior, e.g. \"needs_driven\""),
                ),
            );
        }
        i = i + 1;
    }
    Ok(())
}

/// `name` is one of `known`.
pub open spec fn known_name(known: Seq<Seq<char>>, name: Seq<char>) -> bool {
    exists|j: int| 0 <= j < known.len() && known[j] == name
}

/// The first seat, from index `i`, whose behavior is not among `known`,
/// reported with the known names in text order.
pub open spec fn behavior_names_fault_from(s: Seq<Seat>, known: Seq<Seq<char>>, i: int) -> Option<Fault>
    decreases s.len() - i,
{
    if i < 0 || i >= s.len() {
        None
    } else if !known_name(known, s[i].4) {
        Some(
            (
                seat_field(s[i].1, "' behavior"@),
                s[i].4,
                "must be one of: "@ + joined(sorted_texts(known), ", "@),
            ),
        )
    } else {
        behavior_names_fault_from(s, known, i + 1)
    }
}

/// Every seat from `i` on names a known behavior exactly when the scan
/// from `i` finds no fault.
proof fn lemma_behavior_scan(s: Seq<Seat>, known: Seq<Seq<char>>, i: int)
    requires
        0 <= i <= s.len(),
    ensures
        behavior_names_fault_from(s, known, i) is None <==> forall|k: int|
            i <= k < s.len() ==> exists|j: int| 0 <= j < known.len() && known[j] == (#[trigger] s[k]).4,
    decreases s.len() - i,
{
    if i < s.len() {
        lemma_behavior_scan(s, known, i + 1);
    }
}

/// Behavior names are accepted exactly when every seat names one of the
/// registered behaviors.
pub proof fn lemma_behavior_names_accepted_exactly_when_all_known(s: Seq<Seat>, known: Seq<Seq<char>>)
    ensures
        behavior_names_fault_from(s, known, 0) is None <==> forall|k: int|
            0 <= k < s.len() ==> exists|j: int| 0 <= j < known.len() && known[j] == (#[trigger] s[k]).4,
{
    lemma_behavior_scan(s, known, 0);
}

/// The small tables are accepted exactly when: a purr lasts at least one
/// tick, its minimum is not above its maximum, and its maximum is at most
/// a million ticks; the meow cooldown window is at least one tick and the
/// digest window a positive multiple of it; vision reaches at least two
/// tiles; every event ring keeps at least one event; the viewer waits at
/// least one tick; snapshots are saved at least every tick; the world has
/// a tile for every kitty and for every element at minimum population;
/// and the world is non-empty, ticks at a positive rate and holds at least
/// 32 tiles.
pub proof fn lemma_small_tables_accepted_exactly_when_sound(
    min_ticks: u64,
    max_ticks: u64,
    recent: u64,
    digest: u64,
    radius: u32,
    e: EventsConfig,
    v: ViewerConfig,
    p: PersistenceConfig,
    w: WorldConfig,
    kitty_count: u32,
    element_min: u32,
)
    ensures
        purr_ticks_fault(min_ticks, max_ticks) is None <==> 1 <= min_ticks <= max_ticks <= 1000000,
        meow_windows_fault(recent, digest) is None <==> recent >= 1 && digest >= 1 && digest % recent == 0,
        vision_fault(radius) is None <==> radius >= 2,
        events_fault(e) is None <==> e.distress_retention >= 1 && e.activity_retention >= 1
            && e.refusal_retention >= 1,
        viewer_fault(v) is None <==> v.distress_patience_ticks >= 1,
        persistence_fault(p) is None <==> p.save_every_ticks >= 1,
        capacity_fault(w, kitty_count, element_min) is None <==> kitty_count <= w.width as int * w.height
            && element_min <= w.width as int * w.height,
        world_fault(w) is None <==> w.width >= 1 && w.height >= 1 && w.tick_ms >= 1 && w.width as int * w.height
            >= 32,
{
}

/// Every kitty's behavior must be one of the registered `known` names;
/// the first that is not is reported with the known names in order.
pub fn validate_behavior_names(kitties: &[RosterEntry], known: &Vec<String>) -> (r: Result<
    (),
    ConfigError,
>)
    ensures
        r is Ok <==> behavior_names_fault_from(seats(kitties@), texts(known@), 0) is None,
        r matches Err(e) ==> e.describes(
            behavior_names_fault_from(seats(kitties@), texts(known@), 0).unwrap(),
        ),
{
    let ghost s = seats(kitties@);
    let ghost kn = texts(known@);
    let n = kitties.len();
    let mut i: usize = 0;
    while i < n
        invariant
            n == kitties@.len(),
            s == seats(kitties@),
            kn == texts(known@),
            s.len() == n,
            i <= n,
            behavior_names_fault_from(s, kn, 0) == behavior_names_fault_from(s, kn, i as int),
        decreases n - i,
    {
        let k = &kitties[i];
        assert(s[i as int] == k.seat());
        let mut found = false;
        let mut j: usize = 0;
        while j < known.len()
            invariant
                kn == texts(known@),
                j <= known@.len(),
                found == exists|m: int| 0 <= m < j && kn[m] == k.behavior@,
            decreases known@.len() - j,
        {
            assert(kn[j as int] == known@[j as int]@);
            if known[j] == k.behavior {
                found = true;
            }
            j = j + 1;
        }
        if !found {
            let mut field = String::from_str("[[kitty]] '");
            field.append(k.name.as_str());
            field.append("' behavior");
            let names = sort_texts(known);
            let mut expected = String::from_str("must be one of: ");
            let list = join_texts(&names, ", ");
            expected.append(list.as_str());
            return Err(ConfigError::invalid(field, k.behavior.clone(), expected));
        }
        i = i + 1;
    }
    Ok(())
}

/// The decimal spellings of `ids`, in order.
pub open spec fn id_texts(ids: Seq<KittyId>) -> Seq<Seq<char>> {
    ids.map_values(|id: KittyId| decimal(id as nat))
}

/// The roster's ids, in roster order.
pub open spec fn roster_ids(kitties: Seq<RosterEntry>) -> Seq<KittyId> {
    kitties.map_values(|k: RosterEntry| k.id)
}

/// `w<width>h<height>s<seed>k<ids>`, the ids spelled in decimal, sorted as
/// text and joined by dots.
pub open spec fn fingerprint_of(w: WorldConfig, ids: Seq<KittyId>) -> Seq<char> {
    "w"@ + decimal(w.width as nat) + "h"@ + decimal(w.height as nat) + "s"@ + decimal(w.seed as nat)
        + "k"@ + joined(sorted_texts(id_texts(ids)), "."@)
}

/// Identifies the settings a saved world must agree with to be resumable:
/// the world's shape and seed and the roster's ids.
pub fn fingerprint(world: &WorldConfig, kitties: &[RosterEntry]) -> (f: String)
    ensures
        f@ == fingerprint_of(*world, roster_ids(kitties@)),
{
    let mut ids: Vec<String> = Vec::new();
    let mut i: usize = 0;
    while i < kitties.len()
        invariant
            i <= kitties@.len(),
            texts(ids@) == id_texts(roster_ids(kitties@)).subrange(0, i as int),
        decreases kitties@.len() - i,
    {
        let t = decimal_string(kitties[i].id as u64);
        let ghost before = ids@;
        ids.push(t);
        proof {
            assert(roster_ids(kitties@)[i as int] == kitties@[i as int].id);
            assert(id_texts(roster_ids(kitties@))[i as int] == decimal(kitties@[i as int].id as nat));
            assert(ids@ == before.push(t));
            assert(texts(ids@) =~= texts(before).push(t@));
            assert(texts(ids@) =~= id_texts(roster_ids(kitties@)).subrange(0, i + 1));
        }
        i = i + 1;
    }
    assert(id_texts(roster_ids(kitties@)).subrange(0, kitties@.len() as int) =~= id_texts(
        roster_ids(kitties@),
    ));
    let sorted = sort_texts(&ids);
    let mut f = String::from_str("w");
    push_decimal(&mut f, world.width as u64);
    f.append("h");
    push_decimal(&mut f, world.height as u64);
    f.append("s");
    push_decimal(&mut f, world.seed);
    f.append("k");
    let list = join_texts(&sorted, ".");
    f.append(list.as_str());
    f
}

/// The first fault of the `[events]` table: every ring retains at least
/// one event.
pub open spec fn events_fault(e: EventsConfig) -> Option<Fault> {
    if e.distress_retention == 0 {
        Some(("[events] distress_retention"@, "0"@, "must be at least 1"@))
    } else if e.activity_retention == 0 {
        Some(("[events] activity_retention"@, "0"@, "must be at least 1"@))
    } else if e.refusal_retention == 0 {
        Some(("[events] refusal_retention"@, "0"@, "must be at least 1"@))
    } else {
        None
    }
}

pub fn validate_events(e: &EventsConfig) -> (r: Result<(), ConfigError>)
    ensures
        r is Ok <==> events_fault(*e) is None,
        r matches Err(err) ==> err.describes(events_fault(*e).unwrap()),
{
    if e.distress_retention == 0 {
        return Err(fault("[events] distress_retention", String::from_str("0"), "must be at least 1"));
    }
    if e.activity_retention == 0 {
        return Err(fault("[events] activity_retention", String::from_str("0"), "must be at least 1"));
    }
    if e.refusal_retention == 0 {
        return Err(fault("[events] refusal_retention", String::from_str("0"), "must be at least 1"));
    }
    Ok(())
}

pub open spec fn viewer_fault(v: ViewerConfig) -> Option<Fault> {
    if v.distress_patience_ticks == 0 {
        Some(("[viewer] distress_patience_ticks"@, "0"@, "must be at least 1 tick"@))
    } else {
        None
    }
}

pub fn validate_viewer(v: &ViewerConfig) -> (r: Result<(), ConfigError>)
    ensures
        r is Ok <==> viewer_fault(*v) is None,
        r matches Err(e) ==> e.describes(viewer_fault(*v).unwrap()),
{
    if v.distress_patience_ticks == 0 {
        return Err(
            fault("[viewer] distress_patience_ticks", String::from_str("0"), "must be at least 1 tick"),
        );
    }
    Ok(())
}

pub open spec fn persistence_fault(p: PersistenceConfig) -> Option<Fault> {
    if p.save_every_ticks == 0 {
        Some(("[persistence] save_every_ticks"@, "0"@, "must be at least 1"@))
    } else {
        None
    }
}

pub fn validate_persistence(p: &PersistenceConfig) -> (r: Result<(), ConfigError>)
    ensures
        r is Ok <==> persistence_fault(*p) is None,
        r matches Err(e) ==> e.describes(persistence_fault(*p).unwrap()),
{
    if p.save_every_ticks == 0 {
        return Err(fault("[persistence] save_every_ticks", String::from_str("0"), "must be at least 1"));
    }
    Ok(())
}

/// The world must physically fit its inhabitants: one tile per kitty, and
/// one tile per element at minimum population.
pub open spec fn capacity_fault(w: WorldConfig, kitty_count: u32, element_min: u32) -> Option<
    Fault,
> {
    if kitty_count > w.tiles() {
        Some(
            (
                "[[kitty]] roster"@,
                decimal(kitty_count as nat) + " kitties"@,
                "must not exceed the "@ + decimal(w.tiles() as nat) + " tiles in the world"@,
            ),
        )
    } else if element_min > w.tiles() {
        Some(
            (
                "[elements] combined minimums"@,
                decimal(element_min as nat),
                "must not exceed the "@ + decimal(w.tiles() as nat) + " tiles in the world"@,
            ),
        )
    } else {
        None
    }
}

pub fn validate_capacity(w: &WorldConfig, kitty_count: u32, element_min: u32) -> (r: Result<
    (),
    ConfigError,
>)
    ensures
        r is Ok <==> capacity_fault(*w, kitty_count, element_min) is None,
        r matches Err(e) ==> e.describes(capacity_fault(*w, kitty_count, element_min).unwrap()),
{
    let area = w.area();
    if kitty_count > area {
        let mut v = decimal_string(kitty_count as u64);
        v.append(" kitties");
        let mut expected = String::from_str("must not exceed the ");
        push_decimal(&mut expected, area as u64);
        expected.append(" tiles in the world");
        return Err(ConfigError::invalid(String::from_str("[[kitty]] roster"), v, expected));
    }
    if element_min > area {
        let mut expected = String::from_str("must not exceed the ");
        push_decimal(&mut expected, area as u64);
        expected.append(" tiles in the world");
        return Err(
            ConfigError::invalid(
                String::from_str("[elements] combined minimums"),
                decimal_string(element_min as u64),
                expected,
            ),
        );
    }
    Ok(())
}

pub fn u64_is_zero(v: &u64) -> (b: bool)
    ensures
        b == (*v == 0),
{
    *v == 0
}

} // verus!
