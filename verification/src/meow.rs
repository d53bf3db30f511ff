//! Kitty communication: the vocabulary and the law of who may say what.
//!
//! Law-named words (the wants, the here family, Purr) have their meaning
//! enforced by a grounding predicate; sound-named words (mew, chirp, trill,
//! ekekek) carry only their cooldown. The engine's own patience word,
//! WaitForMe, stands outside the vocabulary flags.

use vstd::prelude::*;

use crate::config::{LawEra, MeowLaw};
use crate::element::{Element, ElementType};
use crate::grid::Position;
use crate::kitty::{memory_index, Kitty, KittyId, Mood};
use crate::needs::need_index;
use crate::needs::NeedKind;
use crate::world::{
    adjacent_critter_in, adjacent_element_in, adjacent_stocked_chow_in, critter_in_view,
    idle_friend_in_view, kind_in_view, near, nearest_at, stocked_in_view, FogView,
};

verus! {

#[derive(Debug, Clone, Copy, PartialEq, Eq, Hash, PartialOrd, Ord, Structural)]
pub enum MessageKind {
    WantEat,
    WantDrink,
    Mew,
    WantPlay,
    WantCuddle,
    Purr,
    WaitForMe,
    WantBath,
    WantSleep,
    HereFood,
    HereWater,
    HereCritter,
    HereSunbeam,
    Chirp,
    Trill,
    Ekekek,
}

/// The whole vocabulary in its normative order.
pub open spec fn message_order() -> Seq<MessageKind> {
    seq![
        MessageKind::WantEat,
        MessageKind::WantDrink,
        MessageKind::Mew,
        MessageKind::WantPlay,
        MessageKind::WantCuddle,
        MessageKind::Purr,
        MessageKind::WaitForMe,
        MessageKind::WantBath,
        MessageKind::WantSleep,
        MessageKind::HereFood,
        MessageKind::HereWater,
        MessageKind::HereCritter,
        MessageKind::HereSunbeam,
        MessageKind::Chirp,
        MessageKind::Trill,
        MessageKind::Ekekek,
    ]
}

/// The here family, in vocabulary order.
pub open spec fn here_order() -> Seq<MessageKind> {
    seq![
        MessageKind::HereFood,
        MessageKind::HereWater,
        MessageKind::HereCritter,
        MessageKind::HereSunbeam,
    ]
}

impl MessageKind {
    pub const ALL: [MessageKind; 16] = [
        MessageKind::WantEat,
        MessageKind::WantDrink,
        MessageKind::Mew,
        MessageKind::WantPlay,
        MessageKind::WantCuddle,
        MessageKind::Purr,
        MessageKind::WaitForMe,
        MessageKind::WantBath,
        MessageKind::WantSleep,
        MessageKind::HereFood,
        MessageKind::HereWater,
        MessageKind::HereCritter,
        MessageKind::HereSunbeam,
        MessageKind::Chirp,
        MessageKind::Trill,
        MessageKind::Ekekek,
    ];

    pub const HERE_KINDS: [MessageKind; 4] = [
        MessageKind::HereFood,
        MessageKind::HereWater,
        MessageKind::HereCritter,
        MessageKind::HereSunbeam,
    ];

    /// The need a want-kind asks about; every other word has none.
    pub open spec fn need_of(self) -> Option<NeedKind> {
        match self {
            MessageKind::WantEat => Some(NeedKind::Eat),
            MessageKind::WantDrink => Some(NeedKind::Drink),
            MessageKind::WantPlay => Some(NeedKind::Play),
            MessageKind::WantCuddle => Some(NeedKind::Cuddle),
            MessageKind::WantBath => Some(NeedKind::Bath),
            MessageKind::WantSleep => Some(NeedKind::Sleep),
            _ => None,
        }
    }

    /// The want-kind that asks about `need`.
    pub open spec fn want_of(need: NeedKind) -> MessageKind {
        match need {
            NeedKind::Eat => MessageKind::WantEat,
            NeedKind::Drink => MessageKind::WantDrink,
            NeedKind::Play => MessageKind::WantPlay,
            NeedKind::Cuddle => MessageKind::WantCuddle,
            NeedKind::Bath => MessageKind::WantBath,
            NeedKind::Sleep => MessageKind::WantSleep,
        }
    }

    /// The wire spelling of a word.
    pub open spec fn wire(self) -> Seq<char> {
        match self {
            MessageKind::WantEat => "want_eat"@,
            MessageKind::WantDrink => "want_drink"@,
            MessageKind::Mew => "mew"@,
            MessageKind::WantPlay => "want_play"@,
            MessageKind::WantCuddle => "want_cuddle"@,
            MessageKind::Purr => "purr"@,
            MessageKind::WaitForMe => "wait_for_me"@,
            MessageKind::WantBath => "want_bath"@,
            MessageKind::WantSleep => "want_sleep"@,
            MessageKind::HereFood => "here_food"@,
            MessageKind::HereWater => "here_water"@,
            MessageKind::HereCritter => "here_critter"@,
            MessageKind::HereSunbeam => "here_sunbeam"@,
            MessageKind::Chirp => "chirp"@,
            MessageKind::Trill => "trill"@,
            MessageKind::Ekekek => "ekekek"@,
        }
    }

    /// The need this message asks about: want-kinds only.
    pub fn related_need(&self) -> (n: Option<NeedKind>)
        ensures
            n == self.need_of(),
    {
        match self {
            MessageKind::WantEat => Some(NeedKind::Eat),
            MessageKind::WantDrink => Some(NeedKind::Drink),
            MessageKind::WantPlay => Some(NeedKind::Play),
            MessageKind::WantCuddle => Some(NeedKind::Cuddle),
            MessageKind::WantBath => Some(NeedKind::Bath),
            MessageKind::WantSleep => Some(NeedKind::Sleep),
            MessageKind::Mew
            | MessageKind::Purr
            | MessageKind::WaitForMe
            | MessageKind::HereFood
            | MessageKind::HereWater
            | MessageKind::HereCritter
            | MessageKind::HereSunbeam
            | MessageKind::Chirp
            | MessageKind::Trill
            | MessageKind::Ekekek => None,
        }
    }

    /// The wire spelling as a static string.
    pub fn wire_name(&self) -> (s: &'static str)
        ensures
            s@ == self.wire(),
    {
        match self {
            MessageKind::WantEat => "want_eat",
            MessageKind::WantDrink => "want_drink",
            MessageKind::Mew => "mew",
            MessageKind::WantPlay => "want_play",
            MessageKind::WantCuddle => "want_cuddle",
            MessageKind::Purr => "purr",
            MessageKind::WaitForMe => "wait_for_me",
            MessageKind::WantBath => "want_bath",
            MessageKind::WantSleep => "want_sleep",
            MessageKind::HereFood => "here_food",
            MessageKind::HereWater => "here_water",
            MessageKind::HereCritter => "here_critter",
            MessageKind::HereSunbeam => "here_sunbeam",
            MessageKind::Chirp => "chirp",
            MessageKind::Trill => "trill",
            MessageKind::Ekekek => "ekekek",
        }
    }

    /// The message a kitty uses to ask for help with `need`.
    pub fn for_need(need: NeedKind) -> (k: MessageKind)
        ensures
            k == MessageKind::want_of(need),
    {
        match need {
            NeedKind::Eat => MessageKind::WantEat,
            NeedKind::Drink => MessageKind::WantDrink,
            NeedKind::Play => MessageKind::WantPlay,
            NeedKind::Cuddle => MessageKind::WantCuddle,
            NeedKind::Bath => MessageKind::WantBath,
            NeedKind::Sleep => MessageKind::WantSleep,
        }
    }
}

/// A word's position in the vocabulary order.
pub open spec fn message_slot(kind: MessageKind) -> int {
    match kind {
        MessageKind::WantEat => 0,
        MessageKind::WantDrink => 1,
        MessageKind::Mew => 2,
        MessageKind::WantPlay => 3,
        MessageKind::WantCuddle => 4,
        MessageKind::Purr => 5,
        MessageKind::WaitForMe => 6,
        MessageKind::WantBath => 7,
        MessageKind::WantSleep => 8,
        MessageKind::HereFood => 9,
        MessageKind::HereWater => 10,
        MessageKind::HereCritter => 11,
        MessageKind::HereSunbeam => 12,
        MessageKind::Chirp => 13,
        MessageKind::Trill => 14,
        MessageKind::Ekekek => 15,
    }
}

/// A word's position in the vocabulary order.
pub fn message_index(kind: MessageKind) -> (i: usize)
    ensures
        i == message_slot(kind),
        i < 16,
        message_order()[i as int] == kind,
{
    match kind {
        MessageKind::WantEat => 0,
        MessageKind::WantDrink => 1,
        MessageKind::Mew => 2,
        MessageKind::WantPlay => 3,
        MessageKind::WantCuddle => 4,
        MessageKind::Purr => 5,
        MessageKind::WaitForMe => 6,
        MessageKind::WantBath => 7,
        MessageKind::WantSleep => 8,
        MessageKind::HereFood => 9,
        MessageKind::HereWater => 10,
        MessageKind::HereCritter => 11,
        MessageKind::HereSunbeam => 12,
        MessageKind::Chirp => 13,
        MessageKind::Trill => 14,
        MessageKind::Ekekek => 15,
    }
}

/// Distinct words sit in distinct slots.
pub proof fn lemma_message_slots_distinct(a: MessageKind, b: MessageKind)
    ensures
        message_slot(a) == message_slot(b) ==> a == b,
        0 <= message_slot(a) < 16,
{
}

/// Every need has its word and every want-word points back at its need.
pub proof fn lemma_need_words_round_trip(need: NeedKind, kind: MessageKind)
    ensures
        MessageKind::want_of(need).need_of() == Some(need),
        kind.need_of() matches Some(n) ==> MessageKind::want_of(n) == kind,
{
}

/// The want ↔ here pairs; cuddle and bath have no here-word.
pub open spec fn here_answering(want: MessageKind) -> Option<MessageKind> {
    match want {
        MessageKind::WantEat => Some(MessageKind::HereFood),
        MessageKind::WantDrink => Some(MessageKind::HereWater),
        MessageKind::WantSleep => Some(MessageKind::HereSunbeam),
        MessageKind::WantPlay => Some(MessageKind::HereCritter),
        _ => None,
    }
}

/// The inverse of `here_answering`.
pub open spec fn want_answered(here: MessageKind) -> Option<MessageKind> {
    match here {
        MessageKind::HereFood => Some(MessageKind::WantEat),
        MessageKind::HereWater => Some(MessageKind::WantDrink),
        MessageKind::HereSunbeam => Some(MessageKind::WantSleep),
        MessageKind::HereCritter => Some(MessageKind::WantPlay),
        _ => None,
    }
}

/// The want a here-kind answers, if any.
pub fn want_for_here(here: MessageKind) -> (w: Option<MessageKind>)
    ensures
        w == want_answered(here),
{
    match here {
        MessageKind::HereFood => Some(MessageKind::WantEat),
        MessageKind::HereWater => Some(MessageKind::WantDrink),
        MessageKind::HereSunbeam => Some(MessageKind::WantSleep),
        MessageKind::HereCritter => Some(MessageKind::WantPlay),
        _ => None,
    }
}

/// The here-word that answers a want-kind, if any.
pub fn here_for_want(want: MessageKind) -> (h: Option<MessageKind>)
    ensures
        h == here_answering(want),
{
    match want {
        MessageKind::WantEat => Some(MessageKind::HereFood),
        MessageKind::WantDrink => Some(MessageKind::HereWater),
        MessageKind::WantSleep => Some(MessageKind::HereSunbeam),
        MessageKind::WantPlay => Some(MessageKind::HereCritter),
        _ => None,
    }
}

/// The pairing is one table read both ways.
pub proof fn lemma_want_here_pairing(want: MessageKind, here: MessageKind)
    ensures
        here_answering(want) == Some(here) <==> want_answered(here) == Some(want),
        here_answering(want) is Some ==> want.need_of() is Some,
        want_answered(here) is Some ==> here_order().contains(here),
{
    if want_answered(here) is Some {
        assert(here_order()[0] == MessageKind::HereFood);
        assert(here_order()[1] == MessageKind::HereWater);
        assert(here_order()[2] == MessageKind::HereCritter);
        assert(here_order()[3] == MessageKind::HereSunbeam);
    }
}

/// The parts of a recorded meow the word law reads: who spoke which word
/// when.
#[derive(Debug, Clone, Copy, PartialEq, Eq, Structural)]
pub struct HeardMeow {
    pub kitty_id: KittyId,
    pub kind: MessageKind,
    pub tick: u64,
}

/// A meow as the world records it: the speaker, the word and the tick,
/// the grounding need's intensity at emission, the speaker's position at
/// emission, and whether it was stamped as a reply. The intensity is a
/// real number on the host's side; the record carries its single-precision
/// bit pattern, which no rule here reads.
#[derive(Debug, Clone, Copy, PartialEq, Eq, Structural)]
pub struct Meow {
    pub kitty_id: KittyId,
    pub kind: MessageKind,
    pub tick: u64,
    pub intensity_bits: u32,
    pub pos: Position,
    pub reply: bool,
}

impl Meow {
    /// The parts of this meow the word law reads.
    pub open spec fn heard_spec(self) -> HeardMeow {
        HeardMeow { kitty_id: self.kitty_id, kind: self.kind, tick: self.tick }
    }

    /// Who spoke which word when.
    pub fn heard(&self) -> (h: HeardMeow)
        ensures
            h == self.heard_spec(),
    {
        HeardMeow { kitty_id: self.kitty_id, kind: self.kind, tick: self.tick }
    }
}

/// The referent of a here-word is somewhere in view. Food means a bowl
/// with a serving left; a word that is no here-word has no referent.
pub open spec fn referent_in_view(here: MessageKind, view: FogView) -> bool {
    match here {
        MessageKind::HereFood => stocked_in_view(view),
        MessageKind::HereWater => kind_in_view(view, ElementType::Water),
        MessageKind::HereSunbeam => kind_in_view(view, ElementType::Sunbeam),
        MessageKind::HereCritter => critter_in_view(view),
        _ => false,
    }
}

/// Some kitty other than the observer was heard saying `want`.
pub open spec fn want_heard(view: FogView, want: MessageKind) -> bool {
    exists|i: int|
        0 <= i < view.heard@.len() && (#[trigger] view.heard@[i]).kind == want
            && view.heard@[i].kitty_id != view.observer
}

/// The reply condition of a here-word: the want it answers was heard from
/// another kitty, and its referent is in view.
pub open spec fn reply_holds(here: MessageKind, view: FogView) -> bool {
    match want_answered(here) {
        Some(want) => want_heard(view, want) && referent_in_view(here, view),
        None => false,
    }
}

/// The referent of a here-word is at hand: on or beside `pos`, by the
/// predicate of the action it names. Food is the nearest bowl at hand, if
/// it still holds a serving.
pub open spec fn at_hand(here: MessageKind, elements: Seq<Element>, pos: Position) -> bool {
    match here {
        MessageKind::HereFood => exists|i: int|
            nearest_at(elements, pos, ElementType::Chow, i) && elements[i].kind.stocked(),
        MessageKind::HereWater => exists|j: int|
            0 <= j < elements.len() && near(#[trigger] elements[j], pos, ElementType::Water),
        MessageKind::HereSunbeam => exists|j: int|
            0 <= j < elements.len() && near(#[trigger] elements[j], pos, ElementType::Sunbeam),
        MessageKind::HereCritter => exists|i: int|
            0 <= i < elements.len() && (#[trigger] elements[i]).kind_type().critter()
                && pos.manhattan(elements[i].pos) <= 1,
        _ => false,
    }
}

/// Relief for `want` that the kitty could reach by itself: food or water
/// seen or remembered; for cuddling an idle friend in view; for play that
/// friend, or a critter seen or remembered. Sleep and bath never have it.
pub open spec fn relief_known(want: MessageKind, kitty: Kitty, view: FogView) -> bool {
    match want {
        MessageKind::WantEat => kind_in_view(view, ElementType::Chow) || kitty.remembers(
            ElementType::Chow,
        ),
        MessageKind::WantDrink => kind_in_view(view, ElementType::Water) || kitty.remembers(
            ElementType::Water,
        ),
        MessageKind::WantCuddle => view.idle_friend_in_view,
        MessageKind::WantPlay => view.idle_friend_in_view || critter_in_view(view)
            || kitty.remembers(ElementType::Bug) || kitty.remembers(ElementType::Greeble),
        _ => false,
    }
}

/// The word law: whether `kitty`, in `mood`, may say `kind` at `tick`.
///
/// WaitForMe, the engine's own word, is bound by its cooldown alone. Every
/// other word needs its vocabulary flag. Purr must be earned. The sound
/// words carry only their cooldown. A here-word needs its referent at hand,
/// or the reply condition, and its cooldown. A want needs its need armed
/// and its cooldown; in the fog era a want other than the bath ask further
/// needs that need to press hardest and no relief the kitty knows of.
pub open spec fn legal(
    kitty: Kitty,
    kind: MessageKind,
    tick: u64,
    law: MeowLaw,
    view: FogView,
    mood: Mood,
) -> bool {
    if kind == MessageKind::WaitForMe {
        kitty.ready(kind, tick)
    } else if !law.vocabulary.armed(kind) {
        false
    } else {
        match kind {
            MessageKind::Purr => mood.purr_earned,
            MessageKind::Mew | MessageKind::Chirp | MessageKind::Trill | MessageKind::Ekekek => {
                kitty.ready(kind, tick)
            },
            MessageKind::HereFood
            | MessageKind::HereWater
            | MessageKind::HereCritter
            | MessageKind::HereSunbeam => (at_hand(kind, view.elements@, kitty.pos) || reply_holds(
                kind,
                view,
            )) && kitty.ready(kind, tick),
            _ => match kind.need_of() {
                Some(need) => {
                    let armed = kitty.armed(need) && kitty.ready(kind, tick);
                    match law.law_era {
                        LawEra::PreFog => armed,
                        LawEra::Fog => if kind == MessageKind::WantBath {
                            armed
                        } else {
                            armed && mood.top_need == need && !relief_known(kind, kitty, view)
                        },
                    }
                },
                None => false,
            },
        }
    }
}

/// Another kitty than the observer was heard saying `want`.
pub open spec fn heard_from_another(view: FogView, want: MessageKind) -> bool {
    exists|i: int|
        0 <= i < view.heard@.len() && (#[trigger] view.heard@[i]).kind == want && view.heard@[i].kitty_id
            != view.observer
}

/// The here-words mean what they say. A here-word the law allows has its
/// referent on or beside the speaker (water, a sunbeam or a critter within
/// one step; a bowl with a serving left within one step), or else it is a
/// reply: another kitty was heard asking for it (drink, sleep, play, eat)
/// and the referent is in view. Seeing the referent farther off, with no
/// one asking, is never enough. Every here-word also waits out its
/// cooldown and needs its vocabulary flag.
pub proof fn lemma_here_words_point_at_their_referent(
    kitty: Kitty,
    kind: MessageKind,
    tick: u64,
    law: MeowLaw,
    view: FogView,
    mood: Mood,
)
    requires
        legal(kitty, kind, tick, law, view, mood),
        kind == MessageKind::HereWater || kind == MessageKind::HereSunbeam || kind == MessageKind::HereCritter
            || kind == MessageKind::HereFood,
    ensures
        kitty.ready(kind, tick),
        law.vocabulary.armed(kind),
        kind == MessageKind::HereWater ==> (exists|j: int|
            0 <= j < view.elements@.len() && (#[trigger] view.elements@[j]).kind_type() == ElementType::Water
                && kitty.pos.manhattan(view.elements@[j].pos) <= 1) || (heard_from_another(
            view,
            MessageKind::WantDrink,
        ) && exists|j: int|
            0 <= j < view.elements@.len() && (#[trigger] view.elements@[j]).kind_type()
                == ElementType::Water),
        kind == MessageKind::HereSunbeam ==> (exists|j: int|
            0 <= j < view.elements@.len() && (#[trigger] view.elements@[j]).kind_type() == ElementType::Sunbeam
                && kitty.pos.manhattan(view.elements@[j].pos) <= 1) || (heard_from_another(
            view,
            MessageKind::WantSleep,
        ) && exists|j: int|
            0 <= j < view.elements@.len() && (#[trigger] view.elements@[j]).kind_type()
                == ElementType::Sunbeam),
        kind == MessageKind::HereCritter ==> (exists|j: int|
            0 <= j < view.elements@.len() && ((#[trigger] view.elements@[j]).kind_type() == ElementType::Bug
                || view.elements@[j].kind_type() == ElementType::Greeble) && kitty.pos.manhattan(
                view.elements@[j].pos,
            ) <= 1) || (heard_from_another(view, MessageKind::WantPlay) && exists|j: int|
            0 <= j < view.elements@.len() && ((#[trigger] view.elements@[j]).kind_type() == ElementType::Bug
                || view.elements@[j].kind_type() == ElementType::Greeble)),
        kind == MessageKind::HereFood ==> (exists|j: int|
            0 <= j < view.elements@.len() && (#[trigger] view.elements@[j]).kind is Chow
                && view.elements@[j].kind->servings > 0 && kitty.pos.manhattan(view.elements@[j].pos) <= 1)
            || (heard_from_another(view, MessageKind::WantEat) && exists|j: int|
            0 <= j < view.elements@.len() && (#[trigger] view.elements@[j]).kind is Chow
                && view.elements@[j].kind->servings > 0),
{
    let els = view.elements@;
    if !reply_holds(kind, view) {
        if kind == MessageKind::HereFood {
            let i = choose|i: int| nearest_at(els, kitty.pos, ElementType::Chow, i) && els[i].kind.stocked();
            assert(els[i].kind is Chow);
        }
    } else {
        if kind == MessageKind::HereFood {
            let i = choose|i: int| 0 <= i < els.len() && (#[trigger] els[i]).kind.stocked();
            assert(els[i].kind is Chow);
        }
    }
}

/// The rest of the word law. WaitForMe is bound by its cooldown alone; the
/// sound words (mew, chirp, trill, ekekek) by their vocabulary flag and
/// cooldown; Purr by its flag and being earned. A want needs its flag, its
/// need armed and its cooldown; in the fog era a want other than the bath
/// ask also needs its need to press hardest and no relief the kitty knows
/// of: no water (for drink) or bowl (for food) in view or remembered, no
/// idle friend in view (for cuddle), and for play neither an idle friend
/// nor a critter in view nor a critter remembered.
pub proof fn lemma_word_law_for_the_other_words(
    kitty: Kitty,
    kind: MessageKind,
    tick: u64,
    law: MeowLaw,
    view: FogView,
    mood: Mood,
)
    ensures
        kind == MessageKind::WaitForMe ==> (legal(kitty, kind, tick, law, view, mood) <==> kitty.ready(kind, tick)),
        (kind == MessageKind::Mew || kind == MessageKind::Chirp || kind == MessageKind::Trill || kind
            == MessageKind::Ekekek) ==> (legal(kitty, kind, tick, law, view, mood) <==> law.vocabulary.armed(kind)
            && kitty.ready(kind, tick)),
        kind == MessageKind::Purr ==> (legal(kitty, kind, tick, law, view, mood) <==> law.vocabulary.armed(kind)
            && mood.purr_earned),
        kind == MessageKind::WantBath ==> (legal(kitty, kind, tick, law, view, mood) <==> law.vocabulary.armed(kind)
            && kitty.armed(NeedKind::Bath) && kitty.ready(kind, tick) && (law.law_era == LawEra::PreFog || (true))),
        kind == MessageKind::WantEat ==> (legal(kitty, kind, tick, law, view, mood) <==> law.vocabulary.armed(kind)
            && kitty.armed(NeedKind::Eat) && kitty.ready(kind, tick) && (law.law_era == LawEra::PreFog || (mood.top_need == NeedKind::Eat && !kitty.remembers(ElementType::Chow) && forall|j: int|
                0 <= j < view.elements@.len() ==> (#[trigger] view.elements@[j]).kind_type() != ElementType::Chow))),
        kind == MessageKind::WantDrink ==> (legal(kitty, kind, tick, law, view, mood) <==> law.vocabulary.armed(kind)
            && kitty.armed(NeedKind::Drink) && kitty.ready(kind, tick) && (law.law_era == LawEra::PreFog || (mood.top_need == NeedKind::Drink && !kitty.remembers(ElementType::Water) && forall|j: int|
                0 <= j < view.elements@.len() ==> (#[trigger] view.elements@[j]).kind_type() != ElementType::Water))),
        kind == MessageKind::WantCuddle ==> (legal(kitty, kind, tick, law, view, mood) <==> law.vocabulary.armed(kind)
            && kitty.armed(NeedKind::Cuddle) && kitty.ready(kind, tick) && (law.law_era == LawEra::PreFog || (mood.top_need == NeedKind::Cuddle && !view.idle_friend_in_view))),
        kind == MessageKind::WantPlay ==> (legal(kitty, kind, tick, law, view, mood) <==> law.vocabulary.armed(kind)
            && kitty.armed(NeedKind::Play) && kitty.ready(kind, tick) && (law.law_era == LawEra::PreFog || (mood.top_need == NeedKind::Play && !view.idle_friend_in_view && !kitty.remembers(ElementType::Bug)
                && !kitty.remembers(ElementType::Greeble) && forall|j: int|
                0 <= j < view.elements@.len() ==> (#[trigger] view.elements@[j]).kind_type() != ElementType::Bug
                    && view.elements@[j].kind_type() != ElementType::Greeble))),
        kind == MessageKind::WantSleep ==> (legal(kitty, kind, tick, law, view, mood) <==> law.vocabulary.armed(kind)
            && kitty.armed(NeedKind::Sleep) && kitty.ready(kind, tick) && (law.law_era == LawEra::PreFog || (mood.top_need == NeedKind::Sleep))),
{
}

/// Whether the referent of a here-word is visible anywhere in the view.
pub fn referent_visible(here: MessageKind, view: &FogView) -> (b: bool)
    ensures
        b == referent_in_view(here, *view),
{
    match here {
        MessageKind::HereFood => view.sees_stocked_chow(),
        MessageKind::HereWater => view.sees(ElementType::Water),
        MessageKind::HereSunbeam => view.sees(ElementType::Sunbeam),
        MessageKind::HereCritter => view.sees_critter(),
        MessageKind::WantEat
        | MessageKind::WantDrink
        | MessageKind::Mew
        | MessageKind::WantPlay
        | MessageKind::WantCuddle
        | MessageKind::Purr
        | MessageKind::WaitForMe
        | MessageKind::WantBath
        | MessageKind::WantSleep
        | MessageKind::Chirp
        | MessageKind::Trill
        | MessageKind::Ekekek => false,
    }
}

/// The reply condition: a meow of the paired want from another kitty is
/// heard, and the here-word's referent is visible.
pub fn reply_condition(here: MessageKind, view: &FogView) -> (b: bool)
    ensures
        b == reply_holds(here, *view),
{
    let want = match want_for_here(here) {
        Some(w) => w,
        None => {
            return false;
        },
    };
    let mut heard = false;
    let mut i: usize = 0;
    while i < view.heard.len()
        invariant
            i <= view.heard@.len(),
            heard == exists|j: int|
                0 <= j < i && (#[trigger] view.heard@[j]).kind == want && view.heard@[j].kitty_id
                    != view.observer,
        decreases view.heard@.len() - i,
    {
        let m = view.heard[i];
        if m.kind == want && m.kitty_id != view.observer {
            heard = true;
        }
        i = i + 1;
    }
    heard && referent_visible(here, view)
}

/// Known relief: what silences a want-word, relief the kitty can reach by
/// itself.
pub fn known_relief(want: MessageKind, kitty: &Kitty, view: &FogView) -> (b: bool)
    ensures
        b == relief_known(want, *kitty, *view),
{
    match want {
        MessageKind::WantEat => view.sees(ElementType::Chow)
            || kitty.memory[memory_index(ElementType::Chow)].is_some(),
        MessageKind::WantDrink => view.sees(ElementType::Water)
            || kitty.memory[memory_index(ElementType::Water)].is_some(),
        MessageKind::WantCuddle => idle_friend_in_view(view),
        MessageKind::WantBath => false,
        MessageKind::WantPlay => idle_friend_in_view(view) || view.sees_critter()
            || kitty.memory[memory_index(ElementType::Bug)].is_some()
            || kitty.memory[memory_index(ElementType::Greeble)].is_some(),
        MessageKind::WantSleep => false,
        MessageKind::Mew
        | MessageKind::Purr
        | MessageKind::WaitForMe
        | MessageKind::HereFood
        | MessageKind::HereWater
        | MessageKind::HereCritter
        | MessageKind::HereSunbeam
        | MessageKind::Chirp
        | MessageKind::Trill
        | MessageKind::Ekekek => false,
    }
}

/// Engine law: may `kitty` speak `kind` at `tick`, seeing `view`, in
/// `mood`? Exactly the ruling of `legal`.
pub fn message_legal(
    kitty: &Kitty,
    kind: MessageKind,
    tick: u64,
    law: &MeowLaw,
    view: &FogView,
    mood: Mood,
) -> (b: bool)
    requires
        kitty.wf(),
    ensures
        b == legal(*kitty, kind, tick, *law, *view, mood),
{
    if kind == MessageKind::WaitForMe {
        return kitty.can_meow(kind, tick);
    }
    if !law.vocabulary.enabled(kind) {
        return false;
    }
    let elements = view.elements.as_slice();
    match kind {
        MessageKind::Purr => mood.purr_earned,
        MessageKind::Mew | MessageKind::Chirp | MessageKind::Trill | MessageKind::Ekekek => {
            kitty.can_meow(kind, tick)
        },
        MessageKind::HereFood => {
            (adjacent_stocked_chow_in(elements, kitty.pos).is_some() || reply_condition(kind, view))
                && kitty.can_meow(kind, tick)
        },
        MessageKind::HereWater => {
            (adjacent_element_in(elements, kitty.pos, ElementType::Water).is_some()
                || reply_condition(kind, view)) && kitty.can_meow(kind, tick)
        },
        MessageKind::HereCritter => {
            (adjacent_critter_in(elements, kitty.pos) || reply_condition(kind, view))
                && kitty.can_meow(kind, tick)
        },
        MessageKind::HereSunbeam => {
            (adjacent_element_in(elements, kitty.pos, ElementType::Sunbeam).is_some()
                || reply_condition(kind, view)) && kitty.can_meow(kind, tick)
        },
        MessageKind::WantEat
        | MessageKind::WantDrink
        | MessageKind::WantPlay
        | MessageKind::WantCuddle
        | MessageKind::WantBath
        | MessageKind::WantSleep => {
            let need = match kind.related_need() {
                Some(n) => n,
                None => {
                    return false;
                },
            };
            let armed = kitty.announce_armed[need_index(need)] && kitty.can_meow(kind, tick);
            match law.law_era {
                LawEra::PreFog => armed,
                LawEra::Fog => {
                    if kind == MessageKind::WantBath {
                        armed
                    } else {
                        armed && mood.top_need == need && !known_relief(kind, kitty, view)
                    }
                },
            }
        },
        MessageKind::WaitForMe => false,
    }
}


/// The meow `m` is one `listener` can hear as a claim of `kind`: that kind,
/// from someone else.
pub open spec fn claims(m: HeardMeow, kind: MessageKind, listener: KittyId) -> bool {
    m.kind == kind && m.kitty_id != listener
}

/// `a` wins the audibility contest over `b`: fresher, or as fresh and from
/// the lower id.
pub open spec fn outranks(a: HeardMeow, b: HeardMeow) -> bool {
    a.tick > b.tick || (a.tick == b.tick && a.kitty_id < b.kitty_id)
}

/// What the audible emitter is: a meow that no other claim outranks is
/// the freshest claim of `kind` from anyone but the listener, and among
/// the claims as fresh as it, the one from the lowest kitty id.
pub proof fn lemma_the_audible_emitter_is_freshest_then_lowest(
    meows: Seq<HeardMeow>,
    kind: MessageKind,
    listener: KittyId,
    m: HeardMeow,
)
    requires
        forall|j: int| 0 <= j < meows.len() && claims(#[trigger] meows[j], kind, listener) ==> !outranks(meows[j], m),
    ensures
        forall|j: int|
            0 <= j < meows.len() && (#[trigger] meows[j]).kind == kind && meows[j].kitty_id != listener ==> {
                &&& meows[j].tick <= m.tick
                &&& meows[j].tick == m.tick ==> meows[j].kitty_id >= m.kitty_id
            },
{
    assert forall|j: int|
        0 <= j < meows.len() && (#[trigger] meows[j]).kind == kind && meows[j].kitty_id != listener implies {
            &&& meows[j].tick <= m.tick
            &&& meows[j].tick == m.tick ==> meows[j].kitty_id >= m.kitty_id
        } by {
        assert(claims(meows[j], kind, listener));
    }
}

/// The audible-emitter rule: among meows of `kind` from anyone but the
/// listener, the freshest wins, a tie falling to the lower kitty id.
pub fn freshest_audible(meows: &[HeardMeow], kind: MessageKind, listener: KittyId) -> (r: Option<
    &HeardMeow,
>)
    ensures
        r is None <==> forall|j: int| 0 <= j < meows@.len() ==> !claims(#[trigger] meows@[j], kind, listener),
        r matches Some(m) ==> {
            &&& claims(*m, kind, listener)
            &&& exists|i: int| 0 <= i < meows@.len() && meows@[i] == *m
            &&& forall|j: int|
                0 <= j < meows@.len() && claims(#[trigger] meows@[j], kind, listener) ==> !outranks(
                    meows@[j],
                    *m,
                )
        },
{
    let mut best: Option<usize> = None;
    let mut i: usize = 0;
    while i < meows.len()
        invariant
            i <= meows@.len(),
            best is None <==> forall|j: int| 0 <= j < i ==> !claims(#[trigger] meows@[j], kind, listener),
            best matches Some(b) ==> {
                &&& b < i
                &&& claims(meows@[b as int], kind, listener)
                &&& forall|j: int|
                    0 <= j < i && claims(#[trigger] meows@[j], kind, listener) ==> !outranks(
                        meows@[j],
                        meows@[b as int],
                    )
            },
        decreases meows@.len() - i,
    {
        let m = &meows[i];
        if m.kind == kind && m.kitty_id != listener {
            match best {
                None => {
                    best = Some(i);
                },
                Some(b) => {
                    let cur = &meows[b];
                    if !(cur.tick > m.tick || (cur.tick == m.tick && cur.kitty_id < m.kitty_id)) {
                        best = Some(i);
                    }
                },
            }
        }
        i = i + 1;
    }
    match best {
        None => None,
        Some(b) => Some(&meows[b]),
    }
}

/// The vocabulary flag out-ranks everything: a word other than WaitForMe
/// whose flag is down is never legal, and WaitForMe is ruled by its
/// cooldown alone whatever the flags say.
pub proof fn lemma_flags_gate_legality(
    kitty: Kitty,
    kind: MessageKind,
    tick: u64,
    law: MeowLaw,
    view: FogView,
    mood: Mood,
)
    ensures
        kind != MessageKind::WaitForMe && !law.vocabulary.armed(kind) ==> !legal(
            kitty,
            kind,
            tick,
            law,
            view,
            mood,
        ),
        legal(kitty, MessageKind::WaitForMe, tick, law, view, mood) == kitty.ready(
            MessageKind::WaitForMe,
            tick,
        ),
{
}

/// The cooldown binds every word but Purr, which is earned instead: a
/// legal word other than Purr is off cooldown, and a legal Purr is earned.
pub proof fn lemma_cooldown_binds_every_word(
    kitty: Kitty,
    kind: MessageKind,
    tick: u64,
    law: MeowLaw,
    view: FogView,
    mood: Mood,
)
    ensures
        legal(kitty, kind, tick, law, view, mood) && kind != MessageKind::Purr ==> kitty.ready(
            kind,
            tick,
        ),
        legal(kitty, MessageKind::Purr, tick, law, view, mood) == (law.vocabulary.armed(
            MessageKind::Purr,
        ) && mood.purr_earned),
{
}

/// The free register carries no grounding: a sound word is legal exactly
/// when its flag is up and its cooldown clear, wherever the kitty stands
/// and whatever it needs.
pub proof fn lemma_sound_words_need_no_grounding(
    kitty: Kitty,
    kind: MessageKind,
    tick: u64,
    law: MeowLaw,
    view: FogView,
    mood: Mood,
)
    requires
        kind == MessageKind::Mew || kind == MessageKind::Chirp || kind == MessageKind::Trill
            || kind == MessageKind::Ekekek,
    ensures
        legal(kitty, kind, tick, law, view, mood) == (law.vocabulary.armed(kind) && kitty.ready(
            kind,
            tick,
        )),
{
}

/// A here-word is never legal with its referent neither at hand nor in
/// view: the reply arm needs the referent visible, the other arm needs it
/// adjacent.
pub proof fn lemma_here_words_point_at_something(
    kitty: Kitty,
    kind: MessageKind,
    tick: u64,
    law: MeowLaw,
    view: FogView,
    mood: Mood,
)
    requires
        here_order().contains(kind),
        legal(kitty, kind, tick, law, view, mood),
    ensures
        at_hand(kind, view.elements@, kitty.pos) || referent_in_view(kind, view),
        reply_holds(kind, view) ==> referent_in_view(kind, view),
{
    let i = choose|i: int| 0 <= i < here_order().len() && here_order()[i] == kind;
    assert(i == 0 || i == 1 || i == 2 || i == 3);
}

/// The fog era only narrows the want law: a want legal in the fog era is
/// legal in the pre-fog era, and in the fog era a want other than the bath
/// ask is silenced by any relief the kitty knows of.
pub proof fn lemma_fog_only_narrows_wants(
    kitty: Kitty,
    kind: MessageKind,
    tick: u64,
    law: MeowLaw,
    view: FogView,
    mood: Mood,
)
    requires
        kind.need_of() is Some,
        law.law_era == LawEra::Fog,
    ensures
        legal(kitty, kind, tick, law, view, mood) ==> legal(
            kitty,
            kind,
            tick,
            MeowLaw { law_era: LawEra::PreFog, ..law },
            view,
            mood,
        ),
        kind != MessageKind::WantBath && relief_known(kind, kitty, view) ==> !legal(
            kitty,
            kind,
            tick,
            law,
            view,
            mood,
        ),
        kind != MessageKind::WantBath && legal(kitty, kind, tick, law, view, mood) ==> mood.top_need
            == kind.need_of().unwrap(),
        legal(kitty, kind, tick, law, view, mood) ==> kitty.armed(kind.need_of().unwrap()),
{
}

} // verus!
