//! Melee: swings, and fights that begin and end.
use crate::cursor::Cursor;
use crate::protocol::{Error, Reader};
use crate::update::{lemma_read_guid_sticky, read_guid, read_packed_guid};
use vstd::prelude::*;

verus! {

/// One melee swing, landed or missed. What it did to anybody's health arrives
/// separately, as an ordinary field update.
#[derive(Debug, Clone, Copy, PartialEq, Eq, Structural)]
pub struct MeleeSwing {
    pub hit_info: u32,
    pub attacker: u64,
    pub victim: u64,
    pub damage: u32,
    /// How much of the damage was more than the victim had left.
    pub overkill: u32,
    pub school: u32,
}

/// What [`parse_melee_swing`] makes of a body. A swing with other than one
/// damage block is refused.
pub open spec fn melee_swing(body: Seq<u8>) -> Result<MeleeSwing, Error> {
    let hit = Cursor::over(body, "SMSG_ATTACKERSTATEUPDATE");
    let (attacker, next) = read_guid(hit.take(4));
    let (victim, totals) = read_guid(next);
    let count = totals.words(2);
    let block = count.take(1).check(
        count.byte() == 1,
        Error::UnconfirmedSwingDamageBlocks { count: count.byte() },
    );
    // The block, then the victim's state and two words.
    block.words(3).take(1).words(2).finish().outcome(
        MeleeSwing {
            hit_info: hit.word(),
            attacker,
            victim,
            damage: totals.nth(0),
            overkill: totals.nth(1),
            school: block.nth(0),
        },
    )
}

/// Parses `SMSG_ATTACKERSTATEUPDATE`.
pub fn parse_melee_swing(body: &[u8]) -> (r: Result<MeleeSwing, Error>)
    ensures
        r == melee_swing(body@),
{
    broadcast use lemma_read_guid_sticky;

    let mut r = Reader::new(body, "SMSG_ATTACKERSTATEUPDATE");
    let hit_info: u32 = r.u32()?;
    let attacker: u64 = read_packed_guid(&mut r)?;
    let victim: u64 = read_packed_guid(&mut r)?;
    let totals = r.words::<2>()?;
    let count: u8 = r.u8()?;
    if count != 1 {
        return Err(Error::UnconfirmedSwingDamageBlocks { count });
    }
    let block = r.words::<3>()?;
    let _state: u8 = r.u8()?;
    r.skip_words(2)?;
    r.finish()?;
    Ok(
        MeleeSwing {
            hit_info,
            attacker,
            victim,
            damage: totals[0],
            overkill: totals[1],
            school: block[0],
        },
    )
}

/// Who is swinging at whom.
#[derive(Debug, Clone, Copy, PartialEq, Eq, Structural)]
pub struct Fight {
    pub attacker: u64,
    pub victim: u64,
}

/// What [`parse_attack_start`] makes of a body: two guids as they are.
pub open spec fn attack_start(body: Seq<u8>) -> Result<Fight, Error> {
    let c = Cursor::over(body, "SMSG_ATTACKSTART");
    c.take(8).take(8).finish().outcome(
        Fight { attacker: c.long(), victim: c.take(8).long() },
    )
}

/// Parses `SMSG_ATTACKSTART`.
pub fn parse_attack_start(body: &[u8]) -> (r: Result<Fight, Error>)
    ensures
        r == attack_start(body@),
{
    let mut r = Reader::new(body, "SMSG_ATTACKSTART");
    let attacker: u64 = r.u64()?;
    let victim: u64 = r.u64()?;
    r.finish()?;
    Ok(Fight { attacker, victim })
}

/// What [`parse_attack_stop`] makes of a body: two packed guids and a word.
pub open spec fn attack_stop(body: Seq<u8>) -> Result<Fight, Error> {
    let (attacker, next) = read_guid(Cursor::over(body, "SMSG_ATTACKSTOP"));
    let (victim, end) = read_guid(next);
    end.take(4).finish().outcome(Fight { attacker, victim })
}

/// Parses `SMSG_ATTACKSTOP`, which packs its guids where the start does not.
pub fn parse_attack_stop(body: &[u8]) -> (r: Result<Fight, Error>)
    ensures
        r == attack_stop(body@),
{
    broadcast use lemma_read_guid_sticky;

    let mut r = Reader::new(body, "SMSG_ATTACKSTOP");
    let attacker: u64 = read_packed_guid(&mut r)?;
    let victim: u64 = read_packed_guid(&mut r)?;
    let _unknown: u32 = r.u32()?;
    r.finish()?;
    Ok(Fight { attacker, victim })
}

} // verus!
