//! The in-combat decision logic of a client: choosing an action, a skill,
//! targets, and confirming the resulting combat event.
//!
//! The states hold only plain data; the engine shell feeds semantic key
//! presses and network payloads in, performs the returned sends, and keeps
//! the replica combat state that these decisions read.

use vstd::prelude::*;

use crate::codec::decode_combat_event;
use crate::codec::decode_event_payload;
use crate::codec::decode_take_turn;
use crate::codec::decode_take_turn_payload;
use crate::combat_event::CombatEvent;
use crate::combat_state::CombatState;
use crate::message::Message;
use crate::message::MessageType;
use crate::combat_state::target_in_bounds;
use crate::combatant::combatant_ids_wf;
use crate::content::ContentStore;
use crate::effect::TargetingScheme;
use crate::item::SkillIdentifier;
use crate::menu::MenuKey;
use crate::target::Target;

verus! {

/// The three top-level actions a combatant can take on its turn.
#[derive(Clone, Copy, Debug, Eq, PartialEq, Structural)]
pub enum Action {
    Attack,
    Skill,
    Skip,
}

impl Action {
    /// The initially selected action.
    pub fn first() -> (r: Action)
        ensures
            r == Action::Attack,
    {
        Action::Attack
    }

    /// The action below the current one, wrapping around.
    pub fn next(&self) -> (r: Action)
        ensures
            *self == Action::Attack ==> r == Action::Skill,
            *self == Action::Skill ==> r == Action::Skip,
            *self == Action::Skip ==> r == Action::Attack,
    {
        match self {
            Action::Attack => Action::Skill,
            Action::Skill => Action::Skip,
            Action::Skip => Action::Attack,
        }
    }

    /// The action above the current one, wrapping around.
    pub fn prev(&self) -> (r: Action)
        ensures
            *self == Action::Attack ==> r == Action::Skip,
            *self == Action::Skill ==> r == Action::Attack,
            *self == Action::Skip ==> r == Action::Skill,
    {
        match self {
            Action::Attack => Action::Skip,
            Action::Skill => Action::Attack,
            Action::Skip => Action::Skill,
        }
    }
}

/// Which action the targeting screen is selecting targets for.
#[derive(Clone, Copy, Debug, Eq, PartialEq, Structural)]
pub enum ActionIdentifier {
    Attack,
    Skill(SkillIdentifier),
}

/// Waiting for the server: either a turn prompt or a mirrored combat event
/// arrives next.
#[derive(Clone, Copy, Debug, Eq, PartialEq, Structural)]
pub struct WaitingState {
}

impl WaitingState {
    pub fn new() -> (r: WaitingState)
    {
        WaitingState {  }
    }

    /// A turn prompt names the combatant this client must act for; action
    /// selection starts at the first action.
    pub fn handle_take_turn(&self, active: Target) -> (r: ActionState)
        ensures
            r.active == active,
            r.action == Action::Attack,
    {
        ActionState::from_waiting_state(self, active)
    }

    /// Dispatches one envelope received while waiting: a turn prompt
    /// enters action selection, a combat event is handed back for replica
    /// application, and everything else — including a malformed payload —
    /// is ignored.
    pub fn handle_message(&self, message: &Message) -> (r: WaitingDecision)
        ensures
            match r {
                WaitingDecision::EnterAction(a) => message@.type_ == MessageType::TakeTurn
                    && (match decode_take_turn_payload(message@.payload) {
                    Some(t) => a.active == t.target && a.action == Action::Attack,
                    None => false,
                }),
                WaitingDecision::ApplyEvent(e) => message@.type_ == MessageType::CombatEvent
                    && decode_event_payload(message@.payload) == Some(e@),
                WaitingDecision::Ignore => (message@.type_ == MessageType::TakeTurn
                    ==> decode_take_turn_payload(message@.payload) is None) && (message@.type_
                    == MessageType::CombatEvent ==> decode_event_payload(
                    message@.payload,
                ) is None),
            },
    {
        match message.type_ {
            MessageType::TakeTurn => match decode_take_turn(message) {
                Some(take_turn) => WaitingDecision::EnterAction(
                    self.handle_take_turn(take_turn.target),
                ),
                None => WaitingDecision::Ignore,
            },
            MessageType::CombatEvent => match decode_combat_event(message) {
                Some(event) => WaitingDecision::ApplyEvent(event),
                None => WaitingDecision::Ignore,
            },
            _ => WaitingDecision::Ignore,
        }
    }
}

/// The decision leaving the waiting screen for one received envelope.
pub enum WaitingDecision {
    /// Not from the server's protocol, or malformed: nothing happens.
    Ignore,
    /// A turn prompt: action selection starts for the named combatant.
    EnterAction(ActionState),
    /// A mirrored combat event: the shell must apply it to the replica
    /// combat state (via [`CombatState::process_event`]) so both sides
    /// converge without exchanging recomputed state.
    ApplyEvent(CombatEvent),
}

/// Choosing among attack, skill and skip for the active combatant.
#[derive(Clone, Copy, Debug, Eq, PartialEq, Structural)]
pub struct ActionState {
    pub active: Target,
    pub action: Action,
}

/// The decision leaving the action screen.
pub enum ActionDecision {
    /// Stay on the action screen.
    Stay,
    /// Enter skill selection.
    EnterSkills(SkillState),
    /// Send a skip event and wait again.
    SendSkip(CombatEvent),
    /// The attack needs explicit target selection.
    EnterTargeting(TargetingState),
    /// The attack hits everything; confirm it as one event.
    EnterConfirmation(ConfirmationState),
}

impl ActionState {
    pub fn from_waiting_state(waiting_state: &WaitingState, active: Target) -> (r: ActionState)
        ensures
            r.active == active,
            r.action == Action::Attack,
    {
        let _ = waiting_state;
        ActionState { active, action: Action::first() }
    }

    /// One key press on the action screen: cycle the selection, reset it
    /// when backing out, or commit the selected action.
    pub fn handle_key(
        &mut self,
        key: MenuKey,
        shared_state: &CombatState,
        store: &ContentStore,
    ) -> (r: ActionDecision)
        requires
            target_in_bounds(shared_state@, old(self).active),
            combatant_ids_wf(
                crate::combat_state::member_at(shared_state@, old(self).active),
                store@,
            ),
        ensures
            final(self).active == old(self).active,
            match key {
                MenuKey::Down => final(self).action == old(self).action.spec_cycle_next()
                    && (r is Stay),
                MenuKey::Up => final(self).action == old(self).action.spec_cycle_prev()
                    && (r is Stay),
                MenuKey::Back => final(self).action == Action::Attack && (r is Stay),
                MenuKey::Confirm => match old(self).action {
                    Action::Skill => (r matches ActionDecision::EnterSkills(s) && s.active == old(
                        self,
                    ).active && s.skill_index == 0) && *final(self) == *old(self),
                    Action::Skip => (r matches ActionDecision::SendSkip(e) && e
                        == CombatEvent::SkipEvent) && *final(self) == *old(self),
                    Action::Attack => *final(self) == *old(self),
                },
            },
    {
        match key {
            MenuKey::Down => {
                self.action = self.action.next();
                ActionDecision::Stay
            },
            MenuKey::Up => {
                self.action = self.action.prev();
                ActionDecision::Stay
            },
            MenuKey::Back => {
                self.action = Action::first();
                ActionDecision::Stay
            },
            MenuKey::Confirm => match self.action {
                Action::Skill => ActionDecision::EnterSkills(SkillState::from_action_state(self)),
                Action::Skip => ActionDecision::SendSkip(CombatEvent::SkipEvent),
                Action::Attack => {
                    let member = &shared_state.parties[self.active.party_index].members[self.active.member_index];
                    let targeting_scheme = match member.weapon {
                        Some(weapon) => store.weapon(weapon).effect.targeting_scheme,
                        None => TargetingScheme::SingleTarget,
                    };
                    let viable_targets = shared_state.get_target_list();
                    if viable_targets.len() == 0 {
                        // no valid targets: the shell logs a warning and the
                        // screen stays as it is
                        ActionDecision::Stay
                    } else {
                        match targeting_scheme {
                            TargetingScheme::All => ActionDecision::EnterConfirmation(
                                ConfirmationState {
                                    active: self.active,
                                    event: CombatEvent::AttackEvent {
                                        source: self.active,
                                        targets: viable_targets,
                                    },
                                },
                            ),
                            TargetingScheme::MultiTarget(_) | TargetingScheme::SingleTarget => ActionDecision::EnterTargeting(
                                TargetingState::from_action_state(
                                    self,
                                    targeting_scheme,
                                    viable_targets,
                                ),
                            ),
                        }
                    }
                },
            },
        }
    }
}

impl Action {
    /// The cycle the Down key follows.
    pub open spec fn spec_cycle_next(self) -> Action {
        match self {
            Action::Attack => Action::Skill,
            Action::Skill => Action::Skip,
            Action::Skip => Action::Attack,
        }
    }

    /// The cycle the Up key follows.
    pub open spec fn spec_cycle_prev(self) -> Action {
        match self {
            Action::Attack => Action::Skip,
            Action::Skill => Action::Attack,
            Action::Skip => Action::Skill,
        }
    }
}

/// Choosing one of the active combatant's skills.
#[derive(Clone, Copy, Debug, Eq, PartialEq, Structural)]
pub struct SkillState {
    pub active: Target,
    pub skill_index: usize,
}

/// The decision leaving the skill screen.
pub enum SkillDecision {
    Stay,
    Back,
    EnterTargeting(TargetingState),
    EnterConfirmation(ConfirmationState),
}

impl SkillState {
    pub fn from_action_state(action_state: &ActionState) -> (r: SkillState)
        ensures
            r.active == action_state.active,
            r.skill_index == 0,
    {
        SkillState { active: action_state.active, skill_index: 0 }
    }

    /// One key press on the skill screen: cycle through the active
    /// combatant's skills, back out, or commit the selected skill.
    pub fn handle_key(
        &mut self,
        key: MenuKey,
        shared_state: &CombatState,
        store: &ContentStore,
    ) -> (r: SkillDecision)
        requires
            target_in_bounds(shared_state@, old(self).active),
            combatant_ids_wf(
                crate::combat_state::member_at(shared_state@, old(self).active),
                store@,
            ),
            crate::combat_state::member_at(shared_state@, old(self).active).skills.len() > 0,
            old(self).skill_index < crate::combat_state::member_at(
                shared_state@,
                old(self).active,
            ).skills.len(),
        ensures
            final(self).active == old(self).active,
            ({
                let skills = crate::combat_state::member_at(shared_state@, old(self).active).skills;
                match key {
                    MenuKey::Down => final(self).skill_index == ((old(self).skill_index + 1) % (
                    skills.len() as int)) && (r is Stay),
                    MenuKey::Up => final(self).skill_index == (if old(self).skill_index == 0 {
                        skills.len() - 1
                    } else {
                        old(self).skill_index - 1
                    }) && (r is Stay),
                    MenuKey::Back => *final(self) == *old(self) && (r is Back),
                    MenuKey::Confirm => *final(self) == *old(self),
                }
            }),
    {
        proof {
            assert(crate::combat_state::member_at(shared_state@, self.active)
                == shared_state.parties@[self.active.party_index as int].members@[
                self.active.member_index as int
            ]@);
        }
        let member = &shared_state.parties[self.active.party_index].members[self.active.member_index];
        proof {
            assert(member.skills.len() == member.skills@.len());
        }
        match key {
            MenuKey::Down => {
                self.skill_index = (self.skill_index + 1) % member.skills.len();
                SkillDecision::Stay
            },
            MenuKey::Up => {
                if self.skill_index == 0 {
                    self.skill_index = member.skills.len() - 1;
                } else {
                    self.skill_index = self.skill_index - 1;
                }
                SkillDecision::Stay
            },
            MenuKey::Back => SkillDecision::Back,
            MenuKey::Confirm => {
                let skill_identifier = member.skills[self.skill_index];
                let viable_targets = shared_state.get_target_list();
                if viable_targets.len() == 0 {
                    // no valid targets: the shell logs a warning
                    SkillDecision::Stay
                } else {
                    let skill = store.skill(skill_identifier);
                    match skill.effect.targeting_scheme {
                        TargetingScheme::All => SkillDecision::EnterConfirmation(
                            ConfirmationState {
                                active: self.active,
                                event: CombatEvent::SkillEvent {
                                    source: self.active,
                                    skill: skill_identifier,
                                    targets: viable_targets,
                                },
                            },
                        ),
                        TargetingScheme::MultiTarget(_) | TargetingScheme::SingleTarget => SkillDecision::EnterTargeting(
                            TargetingState::from_skill_state(
                                self,
                                skill_identifier,
                                skill.effect.targeting_scheme,
                                viable_targets,
                            ),
                        ),
                    }
                }
            },
        }
    }
}

/// Selecting the targets of an attack or skill, one at a time.
#[derive(Clone, Debug, PartialEq)]
pub struct TargetingState {
    pub active: Target,
    pub action_identifier: ActionIdentifier,
    pub targeting_scheme: TargetingScheme,
    pub viable_targets: Vec<Target>,
    pub targets: Vec<Target>,
    pub target_index: usize,
}

/// The decision leaving the targeting screen.
pub enum TargetingDecision {
    Stay,
    Back,
    /// More targets are needed: continue selecting among the rest.
    Continue(TargetingState),
    /// The target list is complete: confirm the assembled event.
    EnterConfirmation(ConfirmationState),
}

impl TargetingState {
    pub fn from_action_state(
        action_state: &ActionState,
        targeting_scheme: TargetingScheme,
        viable_targets: Vec<Target>,
    ) -> (r: TargetingState)
        ensures
            r.active == action_state.active,
            r.action_identifier == ActionIdentifier::Attack,
            r.targeting_scheme == targeting_scheme,
            r.viable_targets@ == viable_targets@,
            r.targets@ == Seq::<Target>::empty(),
            r.target_index == 0,
    {
        TargetingState {
            active: action_state.active,
            action_identifier: ActionIdentifier::Attack,
            targeting_scheme,
            viable_targets,
            targets: Vec::new(),
            target_index: 0,
        }
    }

    pub fn from_skill_state(
        skill_state: &SkillState,
        skill_identifier: SkillIdentifier,
        targeting_scheme: TargetingScheme,
        viable_targets: Vec<Target>,
    ) -> (r: TargetingState)
        ensures
            r.active == skill_state.active,
            r.action_identifier == ActionIdentifier::Skill(skill_identifier),
            r.targeting_scheme == targeting_scheme,
            r.viable_targets@ == viable_targets@,
            r.targets@ == Seq::<Target>::empty(),
            r.target_index == 0,
    {
        TargetingState {
            active: skill_state.active,
            action_identifier: ActionIdentifier::Skill(skill_identifier),
            targeting_scheme,
            viable_targets,
            targets: Vec::new(),
            target_index: 0,
        }
    }

    pub fn from_self(
        targeting_state: &TargetingState,
        viable_targets: Vec<Target>,
        targets: Vec<Target>,
    ) -> (r: TargetingState)
        ensures
            r.active == targeting_state.active,
            r.action_identifier == targeting_state.action_identifier,
            r.targeting_scheme == targeting_state.targeting_scheme,
            r.viable_targets@ == viable_targets@,
            r.targets@ == targets@,
            r.target_index == 0,
    {
        TargetingState {
            active: targeting_state.active,
            action_identifier: targeting_state.action_identifier,
            targeting_scheme: targeting_state.targeting_scheme,
            viable_targets,
            targets,
            target_index: 0,
        }
    }

    /// One key press on the targeting screen: cycle the highlighted target,
    /// back out, or add the highlighted target to the selection. A
    /// selected target leaves the viable list, so no target is picked
    /// twice; the event is complete when the requested count is reached or
    /// no viable targets remain.
    pub fn handle_key(&mut self, key: MenuKey) -> (r: TargetingDecision)
        requires
            old(self).viable_targets@.len() > 0,
            old(self).target_index < old(self).viable_targets@.len(),
            !(old(self).targeting_scheme is All),
        ensures
            match key {
                MenuKey::Down => final(self).target_index == ((old(self).target_index + 1) % (old(
                    self,
                ).viable_targets@.len() as int)) && (r is Stay),
                MenuKey::Up => final(self).target_index == (if old(self).target_index == 0 {
                    old(self).viable_targets@.len() - 1
                } else {
                    old(self).target_index - 1
                }) && (r is Stay),
                MenuKey::Back => *final(self) == *old(self) && (r is Back),
                MenuKey::Confirm => {
                    let chosen = old(self).targets@.push(
                        old(self).viable_targets@[old(self).target_index as int],
                    );
                    let remaining = old(self).viable_targets@.remove(
                        old(self).target_index as int,
                    );
                    match old(self).targeting_scheme {
                        TargetingScheme::MultiTarget(count) => if chosen.len() == count
                            || remaining.len() == 0 {
                            r matches TargetingDecision::EnterConfirmation(c) && c.active == old(
                                self,
                            ).active && confirmation_event_matches(
                                c.event,
                                old(self).action_identifier,
                                old(self).active,
                                chosen,
                            )
                        } else {
                            r matches TargetingDecision::Continue(t) && t.active == old(
                                self,
                            ).active && t.action_identifier == old(self).action_identifier
                                && t.targeting_scheme == old(self).targeting_scheme
                                && t.viable_targets@ == remaining && t.targets@ == chosen
                                && t.target_index == 0
                        },
                        TargetingScheme::SingleTarget => r matches TargetingDecision::EnterConfirmation(
                            c,
                        ) && c.active == old(self).active && confirmation_event_matches(
                            c.event,
                            old(self).action_identifier,
                            old(self).active,
                            chosen,
                        ),
                        TargetingScheme::All => true,
                    }
                },
            },
    {
        proof {
            assert(self.viable_targets.len() == self.viable_targets@.len());
        }
        match key {
            MenuKey::Down => {
                self.target_index = (self.target_index + 1) % self.viable_targets.len();
                TargetingDecision::Stay
            },
            MenuKey::Up => {
                if self.target_index == 0 {
                    self.target_index = self.viable_targets.len() - 1;
                } else {
                    self.target_index = self.target_index - 1;
                }
                TargetingDecision::Stay
            },
            MenuKey::Back => TargetingDecision::Back,
            MenuKey::Confirm => {
                let mut viable_targets = clone_targets(&self.viable_targets);
                let mut targets = clone_targets(&self.targets);
                let picked = viable_targets.remove(self.target_index);
                targets.push(picked);
                match self.targeting_scheme {
                    TargetingScheme::MultiTarget(target_count) => {
                        if targets.len() == target_count || viable_targets.len() == 0 {
                            let event = build_event(
                                self.action_identifier,
                                self.active,
                                targets,
                            );
                            TargetingDecision::EnterConfirmation(
                                ConfirmationState { active: self.active, event },
                            )
                        } else {
                            TargetingDecision::Continue(
                                TargetingState::from_self(self, viable_targets, targets),
                            )
                        }
                    },
                    TargetingScheme::SingleTarget => {
                        let event = build_event(self.action_identifier, self.active, targets);
                        TargetingDecision::EnterConfirmation(
                            ConfirmationState { active: self.active, event },
                        )
                    },
                    TargetingScheme::All => TargetingDecision::Stay,
                }
            },
        }
    }
}

/// The event a confirmation screen carries for `identifier` acting as
/// `source` against `targets`.
pub open spec fn confirmation_event_matches(
    event: CombatEvent,
    identifier: ActionIdentifier,
    source: Target,
    targets: Seq<Target>,
) -> bool {
    match identifier {
        ActionIdentifier::Attack => event matches CombatEvent::AttackEvent {
            source: s2,
            targets: t2,
        } && s2 == source && t2@ == targets,
        ActionIdentifier::Skill(skill) => event matches CombatEvent::SkillEvent {
            source: s2,
            skill: k2,
            targets: t2,
        } && s2 == source && k2 == skill && t2@ == targets,
    }
}

/// Builds the combat event for the finished target selection.
fn build_event(identifier: ActionIdentifier, source: Target, targets: Vec<Target>) -> (r:
    CombatEvent)
    ensures
        confirmation_event_matches(r, identifier, source, targets@),
{
    match identifier {
        ActionIdentifier::Attack => CombatEvent::AttackEvent { source, targets },
        ActionIdentifier::Skill(skill) => CombatEvent::SkillEvent { source, skill, targets },
    }
}

/// Copies a target list.
fn clone_targets(v: &Vec<Target>) -> (r: Vec<Target>)
    ensures
        r@ == v@,
{
    let mut out: Vec<Target> = Vec::new();
    let mut i: usize = 0;
    #[verifier::loop_isolation(false)]
    while i < v.len()
        invariant
            i <= v@.len(),
            out@ == v@.subrange(0, i as int),
        decreases v@.len() - i,
    {
        out.push(v[i]);
        proof {
            assert(out@ =~= v@.subrange(0, i as int + 1));
        }
        i = i + 1;
    }
    proof {
        assert(v@.subrange(0, v@.len() as int) =~= v@);
    }
    out
}

/// Confirming or abandoning an assembled combat event.
#[derive(Clone, Debug, PartialEq)]
pub struct ConfirmationState {
    pub active: Target,
    pub event: CombatEvent,
}

/// The decision leaving the confirmation screen.
pub enum ConfirmationDecision {
    Stay,
    Back,
    /// Send the confirmed event and wait for the server again.
    SendEvent(CombatEvent),
}

impl ConfirmationState {
    pub fn from_action_state(action_state: &ActionState, event: CombatEvent) -> (r:
        ConfirmationState)
        ensures
            r.active == action_state.active,
            r.event == event,
    {
        ConfirmationState { active: action_state.active, event }
    }

    pub fn from_skill_state(skill_state: &SkillState, event: CombatEvent) -> (r: ConfirmationState)
        ensures
            r.active == skill_state.active,
            r.event == event,
    {
        ConfirmationState { active: skill_state.active, event }
    }

    pub fn from_targeting_state(targeting_state: &TargetingState, event: CombatEvent) -> (r:
        ConfirmationState)
        ensures
            r.active == targeting_state.active,
            r.event == event,
    {
        ConfirmationState { active: targeting_state.active, event }
    }

    /// Confirm sends the event; backing out returns to the previous
    /// screen.
    pub fn handle_key(self, key: MenuKey) -> (r: ConfirmationDecision)
        ensures
            key == MenuKey::Confirm ==> (r matches ConfirmationDecision::SendEvent(e) && e
                == self.event),
            key == MenuKey::Back ==> r is Back,
            key == MenuKey::Down || key == MenuKey::Up ==> r is Stay,
    {
        match key {
            MenuKey::Confirm => ConfirmationDecision::SendEvent(self.event),
            MenuKey::Back => ConfirmationDecision::Back,
            _ => ConfirmationDecision::Stay,
        }
    }
}

/// One screen of the in-combat flow.
#[derive(Clone, Debug, PartialEq)]
pub enum TurnState {
    WaitingState(WaitingState),
    ActionState(ActionState),
    SkillState(SkillState),
    TargetingState(TargetingState),
    ConfirmationState(ConfirmationState),
}

impl TurnState {
    /// The initial screen of a fresh combat: waiting for the server.
    pub fn new() -> (r: TurnState)
        ensures
            r == TurnState::WaitingState(WaitingState {  }),
    {
        TurnState::WaitingState(WaitingState::new())
    }
}

/// How the screen stack changes after a decision: stay on the current
/// screen, drop back to the previous one, or push a new one on top.
#[derive(Clone, Debug, PartialEq)]
pub enum StateTransition {
    Stay,
    Old,
    New(TurnState),
}

/// Applies a transition to the screen stack, with the current (already
/// popped) screen in hand: staying pushes it back, backing out drops it so
/// the previous screen resumes, and a new screen goes on top of it.
pub fn apply_transition(
    turn_states: &mut Vec<TurnState>,
    current: TurnState,
    transition: StateTransition,
)
    ensures
        match transition {
            StateTransition::Stay => final(turn_states)@ == old(turn_states)@.push(current),
            StateTransition::Old => final(turn_states)@ == old(turn_states)@,
            StateTransition::New(next) => final(turn_states)@ == old(turn_states)@.push(
                current,
            ).push(next),
        },
{
    match transition {
        StateTransition::Stay => turn_states.push(current),
        StateTransition::Old => (),
        StateTransition::New(next) => {
            turn_states.push(current);
            turn_states.push(next);
        },
    }
}

} // verus!
