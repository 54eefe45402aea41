//! CLI-agent badges: which icon and tint a block header shows for the agent
//! that ran in it.

use vstd::prelude::*;

verus! {

/// A badge icon in the atlas.
#[derive(Copy, Clone, Eq, PartialEq, Hash, Debug, Structural)]
pub enum IconSlot {
    Generic,
    Claude,
    Codex,
}

/// A decoded icon: BGRA8 premultiplied, `width * height` pixels.
pub struct DecodedIcon {
    pub bgra: Vec<u8>,
    pub width: u32,
    pub height: u32,
}

pub open spec fn spec_slot_for_agent(agent_id: u8) -> Option<IconSlot> {
    if agent_id == 0 {
        None
    } else if agent_id == 1 {
        Some(IconSlot::Claude)
    } else if agent_id == 2 {
        Some(IconSlot::Codex)
    } else {
        Some(IconSlot::Generic)
    }
}

/// The icon for a header's agent id: 0 is no badge, 1 and 2 are branded,
/// anything else is the sparkle.
pub fn slot_for_agent(agent_id: u8) -> (r: Option<IconSlot>)
    ensures
        r == spec_slot_for_agent(agent_id),
{
    if agent_id == 0 {
        None
    } else if agent_id == 1 {
        Some(IconSlot::Claude)
    } else if agent_id == 2 {
        Some(IconSlot::Codex)
    } else {
        Some(IconSlot::Generic)
    }
}

/// A coding agent recognised in a block's command.
#[derive(Copy, Clone, Eq, PartialEq, Hash, Debug, Structural)]
pub enum CliAgent {
    Claude,
    Codex,
    Gemini,
    Copilot,
    CursorCli,
    Auggie,
    Goose,
    OpenCode,
    Pi,
    Droid,
    Vibe,
    Hermes,
    Amp,
}

pub open spec fn spec_badge_tint(agent: Option<CliAgent>) -> u32 {
    match agent {
        Some(CliAgent::Claude) => 0xD97706FF,
        Some(CliAgent::Codex) => 0x10B981FF,
        Some(CliAgent::Gemini) => 0x3B82F6FF,
        Some(CliAgent::Copilot) => 0x6366F1FF,
        Some(CliAgent::CursorCli) => 0x8B5CF6FF,
        Some(CliAgent::Auggie) => 0xF59E0BFF,
        Some(CliAgent::Goose) => 0xEC4899FF,
        Some(CliAgent::OpenCode) => 0x06B6D4FF,
        Some(CliAgent::Pi) => 0x84CC16FF,
        Some(CliAgent::Droid) => 0xEF4444FF,
        Some(CliAgent::Vibe) => 0xA855F7FF,
        Some(CliAgent::Hermes) => 0xF97316FF,
        Some(CliAgent::Amp) => 0x22D3EEFF,
        None => 0,
    }
}

/// Brand tint (RGBA) of an agent's badge; 0 when there is no agent.
pub fn agent_badge_tint(agent: Option<CliAgent>) -> (r: u32)
    ensures
        r == spec_badge_tint(agent),
{
    match agent {
        Some(CliAgent::Claude) => 0xD97706FF,
        Some(CliAgent::Codex) => 0x10B981FF,
        Some(CliAgent::Gemini) => 0x3B82F6FF,
        Some(CliAgent::Copilot) => 0x6366F1FF,
        Some(CliAgent::CursorCli) => 0x8B5CF6FF,
        Some(CliAgent::Auggie) => 0xF59E0BFF,
        Some(CliAgent::Goose) => 0xEC4899FF,
        Some(CliAgent::OpenCode) => 0x06B6D4FF,
        Some(CliAgent::Pi) => 0x84CC16FF,
        Some(CliAgent::Droid) => 0xEF4444FF,
        Some(CliAgent::Vibe) => 0xA855F7FF,
        Some(CliAgent::Hermes) => 0xF97316FF,
        Some(CliAgent::Amp) => 0x22D3EEFF,
        None => 0,
    }
}

pub open spec fn spec_agent_id(agent: Option<CliAgent>) -> u8 {
    match agent {
        Some(CliAgent::Claude) => 1,
        Some(CliAgent::Codex) => 2,
        _ => 3,
    }
}

/// Header agent id: 1 and 2 for the two agents with branded icons, 3 for
/// any other agent or none.
pub fn agent_id(agent: Option<CliAgent>) -> (r: u8)
    ensures
        r == spec_agent_id(agent),
{
    match agent {
        Some(CliAgent::Claude) => 1,
        Some(CliAgent::Codex) => 2,
        _ => 3,
    }
}

/// Every header with an agent id gets a badge: the two branded agents
/// their own icons, every other agent and no agent the sparkle.
pub proof fn law_agent_badge(agent: Option<CliAgent>)
    ensures
        spec_slot_for_agent(spec_agent_id(agent)) == match agent {
            Some(CliAgent::Claude) => Some(IconSlot::Claude),
            Some(CliAgent::Codex) => Some(IconSlot::Codex),
            _ => Some(IconSlot::Generic),
        },
{
}

} // verus!
