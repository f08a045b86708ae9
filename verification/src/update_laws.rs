//! What an update, a challenge and time do to a memory.

use crate::challenge::Challenge;
use crate::decay::{Decay, DecayStrategy};
use crate::epistemic::{Epistemic, ValidityView};
use crate::memory::{
    decay_of, fresh_memory, with_update, MemoryType, MemoryUpdateView, MemoryView, Status,
    Visibility,
};
use crate::provenance::Provenance;
use crate::time::Timestamp;
use vstd::prelude::*;

verus! {

/// Each field that an update gives takes the given value, whatever else the
/// update gives and whatever the memory held.
pub proof fn every_given_field_takes_its_value(
    m: MemoryView,
    u: MemoryUpdateView,
    now: Timestamp,
)
    ensures
        u.type_ matches Some(v) ==> with_update(m, u, now).type_ == v,
        u.epistemic matches Some(v) ==> with_update(m, u, now).epistemic == v,
        u.summary matches Some(v) ==> with_update(m, u, now).summary == v,
        u.content matches Some(v) ==> with_update(m, u, now).content == v,
        u.physical matches Some(v) ==> with_update(m, u, now).physical == v,
        u.logical matches Some(v) ==> with_update(m, u, now).logical == v,
        u.tags matches Some(v) ==> with_update(m, u, now).tags == v,
        u.criticality matches Some(v) ==> with_update(m, u, now).criticality == v,
        u.provenance matches Some(v) ==> with_update(m, u, now).provenance == v,
        u.confidence matches Some(v) ==> with_update(m, u, now).confidence == v,
        u.supersedes matches Some(v) ==> with_update(m, u, now).supersedes == v,
        u.status matches Some(v) ==> with_update(m, u, now).status == v,
        u.challenges matches Some(v) ==> with_update(m, u, now).challenges == v,
        u.visibility matches Some(v) ==> with_update(m, u, now).visibility == v,
        u.valid_from is Some ==> with_update(m, u, now).valid_from == u.valid_from,
        u.title is Some ==> with_update(m, u, now).title == u.title,
        u.details is Some ==> with_update(m, u, now).details == u.details,
        u.decay is Some ==> with_update(m, u, now).decay == u.decay,
        u.verified_at is Some ==> with_update(m, u, now).verified_at == u.verified_at,
        u.expires_at is Some ==> with_update(m, u, now).expires_at == u.expires_at,
        u.invalidated_at is Some && !u.clear_invalidated ==> with_update(m, u, now).invalidated_at
            == u.invalidated_at,
        u.superseded_by is Some && !u.clear_invalidated ==> with_update(m, u, now).superseded_by
            == u.superseded_by,
        u.clear_invalidated ==> with_update(m, u, now).invalidated_at is None && with_update(
            m,
            u,
            now,
        ).superseded_by is None,
        u.valid_while matches Some(v) ==> with_update(m, u, now).valid_while == (if v.premise is None
            && v.invalidated_by.len() == 0 && v.origin_task is None && v.derived_from.len() == 0 {
            None::<ValidityView>
        } else {
            Some(v)
        }),
        with_update(m, u, now).updated_at == now,
{
}

/// Each field that an update does not give stays, whatever else it gives.
pub proof fn every_other_field_stays(m: MemoryView, u: MemoryUpdateView, now: Timestamp)
    ensures
        u.type_ is None ==> with_update(m, u, now).type_ == m.type_,
        u.epistemic is None ==> with_update(m, u, now).epistemic == m.epistemic,
        u.summary is None ==> with_update(m, u, now).summary == m.summary,
        u.content is None ==> with_update(m, u, now).content == m.content,
        u.physical is None ==> with_update(m, u, now).physical == m.physical,
        u.logical is None ==> with_update(m, u, now).logical == m.logical,
        u.tags is None ==> with_update(m, u, now).tags == m.tags,
        u.criticality is None ==> with_update(m, u, now).criticality == m.criticality,
        u.provenance is None ==> with_update(m, u, now).provenance == m.provenance,
        u.confidence is None ==> with_update(m, u, now).confidence == m.confidence,
        u.supersedes is None ==> with_update(m, u, now).supersedes == m.supersedes,
        u.status is None ==> with_update(m, u, now).status == m.status,
        u.challenges is None ==> with_update(m, u, now).challenges == m.challenges,
        u.visibility is None ==> with_update(m, u, now).visibility == m.visibility,
        u.valid_from is None ==> with_update(m, u, now).valid_from == m.valid_from,
        u.title is None ==> with_update(m, u, now).title == m.title,
        u.details is None ==> with_update(m, u, now).details == m.details,
        u.decay is None ==> with_update(m, u, now).decay == m.decay,
        u.verified_at is None ==> with_update(m, u, now).verified_at == m.verified_at,
        u.expires_at is None ==> with_update(m, u, now).expires_at == m.expires_at,
        u.valid_while is None ==> with_update(m, u, now).valid_while == m.valid_while,
        u.invalidated_at is None && !u.clear_invalidated ==> with_update(m, u, now).invalidated_at
            == m.invalidated_at,
        u.superseded_by is None && !u.clear_invalidated ==> with_update(m, u, now).superseded_by
            == m.superseded_by,
        with_update(m, u, now).id == m.id,
        with_update(m, u, now).created_at == m.created_at,
        with_update(m, u, now).accessed_at == m.accessed_at,
{
}

/// A memory after two updates.
pub open spec fn twice_updated(
    m: MemoryView,
    first: MemoryUpdateView,
    second: MemoryUpdateView,
    now: Timestamp,
    later: Timestamp,
) -> MemoryView {
    with_update(with_update(m, first, now), second, later)
}

/// Of two updates one after the other the later one decides on what both give,
/// and what only the earlier one gives stays.
pub proof fn the_later_update_wins(
    m: MemoryView,
    first: MemoryUpdateView,
    second: MemoryUpdateView,
    now: Timestamp,
    later: Timestamp,
)
    ensures
        second.type_ matches Some(v) ==> twice_updated(m, first, second, now, later).type_ == v,
        second.type_ is None && first.type_ is Some ==>
            Some(twice_updated(m, first, second, now, later).type_) == first.type_,
        second.epistemic matches Some(v) ==>
            twice_updated(m, first, second, now, later).epistemic == v,
        second.epistemic is None && first.epistemic is Some ==>
            Some(twice_updated(m, first, second, now, later).epistemic) == first.epistemic,
        second.summary matches Some(v) ==>
            twice_updated(m, first, second, now, later).summary == v,
        second.summary is None && first.summary is Some ==>
            Some(twice_updated(m, first, second, now, later).summary) == first.summary,
        second.content matches Some(v) ==>
            twice_updated(m, first, second, now, later).content == v,
        second.content is None && first.content is Some ==>
            Some(twice_updated(m, first, second, now, later).content) == first.content,
        second.physical matches Some(v) ==>
            twice_updated(m, first, second, now, later).physical == v,
        second.physical is None && first.physical is Some ==>
            Some(twice_updated(m, first, second, now, later).physical) == first.physical,
        second.logical matches Some(v) ==>
            twice_updated(m, first, second, now, later).logical == v,
        second.logical is None && first.logical is Some ==>
            Some(twice_updated(m, first, second, now, later).logical) == first.logical,
        second.tags matches Some(v) ==> twice_updated(m, first, second, now, later).tags == v,
        second.tags is None && first.tags is Some ==>
            Some(twice_updated(m, first, second, now, later).tags) == first.tags,
        second.criticality matches Some(v) ==>
            twice_updated(m, first, second, now, later).criticality == v,
        second.criticality is None && first.criticality is Some ==>
            Some(twice_updated(m, first, second, now, later).criticality) == first.criticality,
        second.provenance matches Some(v) ==>
            twice_updated(m, first, second, now, later).provenance == v,
        second.provenance is None && first.provenance is Some ==>
            Some(twice_updated(m, first, second, now, later).provenance) == first.provenance,
        second.confidence matches Some(v) ==>
            twice_updated(m, first, second, now, later).confidence == v,
        second.confidence is None && first.confidence is Some ==>
            Some(twice_updated(m, first, second, now, later).confidence) == first.confidence,
        second.supersedes matches Some(v) ==>
            twice_updated(m, first, second, now, later).supersedes == v,
        second.supersedes is None && first.supersedes is Some ==>
            Some(twice_updated(m, first, second, now, later).supersedes) == first.supersedes,
        second.status matches Some(v) ==> twice_updated(m, first, second, now, later).status == v,
        second.status is None && first.status is Some ==>
            Some(twice_updated(m, first, second, now, later).status) == first.status,
        second.challenges matches Some(v) ==>
            twice_updated(m, first, second, now, later).challenges == v,
        second.challenges is None && first.challenges is Some ==>
            Some(twice_updated(m, first, second, now, later).challenges) == first.challenges,
        second.visibility matches Some(v) ==>
            twice_updated(m, first, second, now, later).visibility == v,
        second.visibility is None && first.visibility is Some ==>
            Some(twice_updated(m, first, second, now, later).visibility) == first.visibility,
        second.valid_from is Some ==>
            twice_updated(m, first, second, now, later).valid_from == second.valid_from,
        second.valid_from is None && first.valid_from is Some ==>
            twice_updated(m, first, second, now, later).valid_from == first.valid_from,
        second.title is Some ==>
            twice_updated(m, first, second, now, later).title == second.title,
        second.title is None && first.title is Some ==>
            twice_updated(m, first, second, now, later).title == first.title,
        second.details is Some ==>
            twice_updated(m, first, second, now, later).details == second.details,
        second.details is None && first.details is Some ==>
            twice_updated(m, first, second, now, later).details == first.details,
        second.decay is Some ==>
            twice_updated(m, first, second, now, later).decay == second.decay,
        second.decay is None && first.decay is Some ==>
            twice_updated(m, first, second, now, later).decay == first.decay,
        second.verified_at is Some ==>
            twice_updated(m, first, second, now, later).verified_at == second.verified_at,
        second.verified_at is None && first.verified_at is Some ==>
            twice_updated(m, first, second, now, later).verified_at == first.verified_at,
        second.expires_at is Some ==>
            twice_updated(m, first, second, now, later).expires_at == second.expires_at,
        second.expires_at is None && first.expires_at is Some ==>
            twice_updated(m, first, second, now, later).expires_at == first.expires_at,
{
}

/// A new memory is what it was made of, active, shared, with the whole project as
/// its scope and nothing else set; and it is in force at every time.
pub proof fn a_new_memory_is_in_force(
    id: Seq<char>,
    type_: MemoryType,
    summary: Seq<char>,
    content: Seq<char>,
    provenance: Provenance,
    now: Timestamp,
    at: Timestamp,
)
    ensures
        ({
            let m = fresh_memory(id, type_, summary, content, provenance, now);
            &&& m.id == id && m.type_ == type_ && m.summary == summary && m.content == content
            &&& m.provenance == provenance
            &&& m.created_at == now && m.updated_at == now && m.accessed_at == now
            &&& m.status == Status::Active && m.visibility == Visibility::Shared
            &&& m.physical.len() == 1 && m.physical[0] == "/"@
            &&& m.logical.len() == 0 && m.tags.len() == 0 && m.supersedes.len() == 0
            &&& m.challenges.len() == 0
            &&& m.title is None && m.details is None && m.valid_while is None && m.valid_from is None
            &&& m.invalidated_at is None && m.superseded_by is None && m.verified_at is None
            &&& m.expires_at is None
            &&& m.criticality.bits == 0x3fe0_0000_0000_0000u64
            &&& m.confidence.bits == 0x3fe9_9999_9999_999au64
            &&& m.decay == Some(decay_of(type_, m.epistemic))
            &&& m.active(at) && !m.expired(at) && !m.invalidated(at)
        }),
{
}

/// A memory has expired from just after the time at which it expires, and its
/// validity has ended from the very time at which it ends. One without such a time
/// never does.
pub proof fn expiry_and_validity_go_by_the_time(m: MemoryView, now: Timestamp)
    ensures
        m.expires_at is None ==> !m.expired(now),
        m.expires_at matches Some(t) ==> (m.expired(now) <==> t.secs < now.secs || (t.secs
            == now.secs && t.nanos < now.nanos)),
        m.invalidated_at is None ==> !m.invalidated(now),
        m.invalidated_at matches Some(t) ==> (m.invalidated(now) <==> t.secs < now.secs || (t.secs
            == now.secs && t.nanos <= now.nanos)),
{
}

/// A memory is in force while its status is active and it has neither expired nor
/// been invalidated; whatever else it holds does not matter. Once it has expired
/// or been invalidated it stays so.
pub proof fn being_in_force_depends_on_status_and_time_alone(
    m: MemoryView,
    n: MemoryView,
    now: Timestamp,
    later: Timestamp,
)
    requires
        m.status == n.status,
        m.expires_at == n.expires_at,
        m.invalidated_at == n.invalidated_at,
        now.secs < later.secs || (now.secs == later.secs && now.nanos <= later.nanos),
    ensures
        m.active(now) == n.active(now),
        m.status != Status::Active ==> !m.active(now),
        m.expired(now) ==> m.expired(later) && !m.active(later),
        m.invalidated(now) ==> m.invalidated(later) && !m.active(later),
        m.status == Status::Active && !m.expired(now) && !m.invalidated(now) ==> m.active(now),
{
}

/// A challenge is added behind the others, marks the memory as challenged and as
/// updated, and leaves everything else.
pub proof fn a_challenge_is_added_and_nothing_else(
    m: MemoryView,
    challenge: Challenge,
    now: Timestamp,
)
    ensures
        m.challenged(challenge, now) == (MemoryView {
            challenges: m.challenges + seq![challenge],
            status: Status::Challenged,
            updated_at: now,
            ..m
        }),
{
    assert(m.challenges + seq![challenge] =~= m.challenges.push(challenge));
}

/// Whether a memory does not fade, and counts for no less than the floor.
pub open spec fn lasts(d: Decay, floor: u64) -> bool {
    d.strategy == DecayStrategy::Off && d.half_life is None && d.ttl is None && d.floor.bits
        == floor
}

/// Whether a memory halves in so many days, down to the floor.
pub open spec fn halves(d: Decay, days: int, floor: u64) -> bool {
    &&& d.strategy == DecayStrategy::Exponential
    &&& d.half_life matches Some(s) && s.secs == days * 86_400 && s.nanos == 0
    &&& d.ttl is None
    &&& d.floor.bits == floor
}

/// Which kinds of memory fade, how fast and down to what: a hazard keeps one half,
/// an intent halves in fourteen days and a debugging note in thirty; as an
/// observation, where that is not its own class, a memory halves in ninety days
/// down to one fifth; as a fact, where that is not its own class, it does not fade.
pub proof fn fading_goes_by_type_and_class(type_: MemoryType, class: Epistemic)
    ensures
        type_ == MemoryType::Hazard && class != Epistemic::Observation ==> lasts(
            decay_of(type_, class),
            0x3fe0_0000_0000_0000u64,
        ),
        type_ == MemoryType::Intent && class == Epistemic::Decision ==> halves(
            decay_of(type_, class),
            14,
            0u64,
        ),
        type_ == MemoryType::Debug && class != Epistemic::Fact ==> halves(
            decay_of(type_, class),
            30,
            0u64,
        ),
        class == Epistemic::Observation && type_ != MemoryType::Debug ==> halves(
            decay_of(type_, class),
            90,
            0x3fc9_9999_9999_999au64,
        ),
        class == Epistemic::Fact && type_ != MemoryType::Hazard ==> lasts(
            decay_of(type_, class),
            0u64,
        ),
        class == Epistemic::Decision && type_ != MemoryType::Hazard && type_ != MemoryType::Intent
            && type_ != MemoryType::Debug ==> lasts(decay_of(type_, class), 0u64),
{
}

/// The class of a memory whose author names none: debugging notes are
/// observations, decisions, intents and preferences are decisions, and the rest
/// are facts.
pub proof fn an_unnamed_class_goes_by_the_type(type_: MemoryType)
    ensures
        type_.epistemic_class() == Epistemic::Observation <==> type_ == MemoryType::Debug,
        type_.epistemic_class() == Epistemic::Decision <==> type_ == MemoryType::Decision || type_
            == MemoryType::Intent || type_ == MemoryType::Preference,
        type_.epistemic_class() == Epistemic::Fact <==> type_ == MemoryType::Context || type_
            == MemoryType::Convention || type_ == MemoryType::Relationship || type_
            == MemoryType::Hazard,
{
}

} // verus!
