//! World server opcodes.
//!
//! Only the numbers this client sends or recognises are named. An opcode that
//! is not named is not an error: the server volunteers plenty that a client is
//! free to ignore, and [`describe`] renders those as their number.
use crate::text::{hex_padded, hex_padded_text};
use vstd::prelude::*;
use vstd::string::*;

pub mod server;

verus! {

/// Client-to-server opcodes, 32 bits wide on the wire.
///
/// See [`ClientOpcode::code`] for the numbers.
#[derive(Clone, Copy, Debug, PartialEq, Eq, Structural)]
pub enum ClientOpcode {
    CharCreate,
    CharEnum,
    CharDelete,
    PlayerLogin,
    Ping,
    AuthSession,
    TimeSyncResp,
    SetSelection,
    NameQuery,
    CreatureQuery,
    GameObjectQuery,
    GameObjectUse,
    ItemQuerySingle,
    UseItem,
    MessageChat,
    CastSpell,
    AttackSwing,
    AttackStop,
    SetSheathed,
    CancelAura,
    AutoEquipItem,
    AutoStoreBagItem,
    SwapItemCandidate,
    DestroyItem,
    AutoStoreLootItem,
    Loot,
    LootMoney,
    LootRelease,
    RepopRequest,
    ReclaimCorpse,
    SpiritHealerActivate,
    MoveStartForward,
    MoveStartBackward,
    MoveStop,
    MoveStartStrafeLeft,
    MoveStartStrafeRight,
    MoveStopStrafe,
    MoveJump,
    MoveStartTurnLeft,
    MoveStartTurnRight,
    MoveStopTurn,
    MoveSetRunMode,
    MoveSetWalkMode,
    MoveFallLand,
    MoveStartSwim,
    MoveStopSwim,
    MoveSetFacing,
    MoveHeartbeat,
    MoveTeleportAck,
    MoveWorldportAck,
    GossipHello,
    GossipSelectOption,
    ListInventory,
    SellItem,
    BuyItem,
    QuestgiverStatusQuery,
    QuestgiverStatusMultipleQuery,
    QuestgiverHello,
    QuestgiverQueryQuest,
    QuestgiverAcceptQuest,
    QuestgiverCompleteQuest,
    QuestgiverChooseReward,
    QuestQuery,
    QuestPoiQuery,
    CorpseQuery,
    GroupInvite,
    GroupAccept,
    GroupDecline,
    GroupDisband,
    GroupUninviteGuid,
    GroupSetLeader,
    GroupSetLootMethod,
    GroupUninviteByName,
    TrainerList,
    TrainerBuySpell,
    InitiateTrade,
    BeginTrade,
    BusyTrade,
    IgnoreTrade,
    AcceptTrade,
    UnacceptTrade,
    CancelTrade,
    SetTradeItem,
    ClearTradeItem,
    SetTradeGold,
    TaxiQueryAvailableNodes,
    ActivateTaxi,
    SendMail,
    GetMailList,
    MailTakeMoney,
    MailTakeItem,
    MailMarkAsRead,
    MailReturnToSender,
    MailDelete,
    MailCreateTextItem,
    QueryNextMailTime,
    GuildQuery,
    GuildInvite,
    GuildAccept,
    GuildDecline,
    GuildInfo,
    GuildRoster,
    GuildPromote,
    GuildDemote,
    GuildLeave,
    GuildRemove,
    GuildDisband,
    GuildLeader,
    GuildMotd,
    GuildSetPublicNote,
    GuildSetOfficerNote,
    GuildInfoText,
    AuctionHello,
    AuctionSellItem,
    AuctionRemoveItem,
    AuctionListItems,
    AuctionListOwnerItems,
    AuctionPlaceBid,
    AuctionListBidderItems,
    AuctionListPendingSales,
}

/// The number of a client opcode.
#[verifier::opaque]
pub open spec fn client_code(opcode: ClientOpcode) -> u32 {
    match opcode {
        ClientOpcode::CharCreate => 0x0036,
        ClientOpcode::CharEnum => 0x0037,
        ClientOpcode::CharDelete => 0x0038,
        ClientOpcode::PlayerLogin => 0x003D,
        ClientOpcode::Ping => 0x01DC,
        ClientOpcode::AuthSession => 0x01ED,
        ClientOpcode::TimeSyncResp => 0x0391,
        ClientOpcode::SetSelection => 0x013D,
        ClientOpcode::NameQuery => 0x0050,
        ClientOpcode::CreatureQuery => 0x0060,
        ClientOpcode::GameObjectQuery => 0x005E,
        ClientOpcode::GameObjectUse => 0x00B1,
        ClientOpcode::ItemQuerySingle => 0x0056,
        ClientOpcode::UseItem => 0x00AB,
        ClientOpcode::MessageChat => 0x0095,
        ClientOpcode::CastSpell => 0x012E,
        ClientOpcode::AttackSwing => 0x0141,
        ClientOpcode::AttackStop => 0x0142,
        ClientOpcode::SetSheathed => 0x01E0,
        ClientOpcode::CancelAura => 0x0136,
        ClientOpcode::AutoEquipItem => 0x010A,
        ClientOpcode::AutoStoreBagItem => 0x010B,
        ClientOpcode::SwapItemCandidate => 0x010C,
        ClientOpcode::DestroyItem => 0x0111,
        ClientOpcode::AutoStoreLootItem => 0x0108,
        ClientOpcode::Loot => 0x015D,
        ClientOpcode::LootMoney => 0x015E,
        ClientOpcode::LootRelease => 0x015F,
        ClientOpcode::RepopRequest => 0x015A,
        ClientOpcode::ReclaimCorpse => 0x01D2,
        ClientOpcode::SpiritHealerActivate => 0x021C,
        ClientOpcode::MoveStartForward => 0x00B5,
        ClientOpcode::MoveStartBackward => 0x00B6,
        ClientOpcode::MoveStop => 0x00B7,
        ClientOpcode::MoveStartStrafeLeft => 0x00B8,
        ClientOpcode::MoveStartStrafeRight => 0x00B9,
        ClientOpcode::MoveStopStrafe => 0x00BA,
        ClientOpcode::MoveJump => 0x00BB,
        ClientOpcode::MoveStartTurnLeft => 0x00BC,
        ClientOpcode::MoveStartTurnRight => 0x00BD,
        ClientOpcode::MoveStopTurn => 0x00BE,
        ClientOpcode::MoveSetRunMode => 0x00C2,
        ClientOpcode::MoveSetWalkMode => 0x00C3,
        ClientOpcode::MoveFallLand => 0x00C9,
        ClientOpcode::MoveStartSwim => 0x00CA,
        ClientOpcode::MoveStopSwim => 0x00CB,
        ClientOpcode::MoveSetFacing => 0x00DA,
        ClientOpcode::MoveHeartbeat => 0x00EE,
        ClientOpcode::MoveTeleportAck => 0x00C7,
        ClientOpcode::MoveWorldportAck => 0x00DC,
        ClientOpcode::GossipHello => 0x017B,
        ClientOpcode::GossipSelectOption => 0x017C,
        ClientOpcode::ListInventory => 0x019E,
        ClientOpcode::SellItem => 0x01A0,
        ClientOpcode::BuyItem => 0x01A2,
        ClientOpcode::QuestgiverStatusQuery => 0x0182,
        ClientOpcode::QuestgiverStatusMultipleQuery => 0x0416,
        ClientOpcode::QuestgiverHello => 0x0184,
        ClientOpcode::QuestgiverQueryQuest => 0x0186,
        ClientOpcode::QuestgiverAcceptQuest => 0x0189,
        ClientOpcode::QuestgiverCompleteQuest => 0x018A,
        ClientOpcode::QuestgiverChooseReward => 0x018E,
        ClientOpcode::QuestQuery => 0x005C,
        ClientOpcode::QuestPoiQuery => 0x01E3,
        ClientOpcode::CorpseQuery => 0x0216,
        ClientOpcode::GroupInvite => 0x006E,
        ClientOpcode::GroupAccept => 0x0072,
        ClientOpcode::GroupDecline => 0x0073,
        ClientOpcode::GroupDisband => 0x007B,
        ClientOpcode::GroupUninviteGuid => 0x0076,
        ClientOpcode::GroupSetLeader => 0x0078,
        ClientOpcode::GroupSetLootMethod => 0x007A,
        ClientOpcode::GroupUninviteByName => 0x0075,
        ClientOpcode::TrainerList => 0x01B0,
        ClientOpcode::TrainerBuySpell => 0x01B2,
        ClientOpcode::InitiateTrade => 0x0116,
        ClientOpcode::BeginTrade => 0x0117,
        ClientOpcode::BusyTrade => 0x0118,
        ClientOpcode::IgnoreTrade => 0x0119,
        ClientOpcode::AcceptTrade => 0x011A,
        ClientOpcode::UnacceptTrade => 0x011B,
        ClientOpcode::CancelTrade => 0x011C,
        ClientOpcode::SetTradeItem => 0x011D,
        ClientOpcode::ClearTradeItem => 0x011E,
        ClientOpcode::SetTradeGold => 0x011F,
        ClientOpcode::TaxiQueryAvailableNodes => 0x01AC,
        ClientOpcode::ActivateTaxi => 0x01AD,
        ClientOpcode::SendMail => 0x0238,
        ClientOpcode::GetMailList => 0x023A,
        ClientOpcode::MailTakeMoney => 0x0245,
        ClientOpcode::MailTakeItem => 0x0246,
        ClientOpcode::MailMarkAsRead => 0x0247,
        ClientOpcode::MailReturnToSender => 0x0248,
        ClientOpcode::MailDelete => 0x0249,
        ClientOpcode::MailCreateTextItem => 0x024A,
        ClientOpcode::QueryNextMailTime => 0x0284,
        ClientOpcode::GuildQuery => 0x0054,
        ClientOpcode::GuildInvite => 0x0082,
        ClientOpcode::GuildAccept => 0x0084,
        ClientOpcode::GuildDecline => 0x0085,
        ClientOpcode::GuildInfo => 0x0087,
        ClientOpcode::GuildRoster => 0x0089,
        ClientOpcode::GuildPromote => 0x008B,
        ClientOpcode::GuildDemote => 0x008C,
        ClientOpcode::GuildLeave => 0x008D,
        ClientOpcode::GuildRemove => 0x008E,
        ClientOpcode::GuildDisband => 0x008F,
        ClientOpcode::GuildLeader => 0x0090,
        ClientOpcode::GuildMotd => 0x0091,
        ClientOpcode::GuildSetPublicNote => 0x0234,
        ClientOpcode::GuildSetOfficerNote => 0x0235,
        ClientOpcode::GuildInfoText => 0x02FC,
        ClientOpcode::AuctionHello => 0x0255,
        ClientOpcode::AuctionSellItem => 0x0256,
        ClientOpcode::AuctionRemoveItem => 0x0257,
        ClientOpcode::AuctionListItems => 0x0258,
        ClientOpcode::AuctionListOwnerItems => 0x0259,
        ClientOpcode::AuctionPlaceBid => 0x025A,
        ClientOpcode::AuctionListBidderItems => 0x0264,
        ClientOpcode::AuctionListPendingSales => 0x048F,
    }
}

impl ClientOpcode {
    /// The number this opcode has on the wire.
    pub fn code(self) -> (r: u32)
        ensures
            r == client_code(self),
    {
        reveal(client_code);
        match self {
            ClientOpcode::CharCreate => 0x0036,
            ClientOpcode::CharEnum => 0x0037,
            ClientOpcode::CharDelete => 0x0038,
            ClientOpcode::PlayerLogin => 0x003D,
            ClientOpcode::Ping => 0x01DC,
            ClientOpcode::AuthSession => 0x01ED,
            ClientOpcode::TimeSyncResp => 0x0391,
            ClientOpcode::SetSelection => 0x013D,
            ClientOpcode::NameQuery => 0x0050,
            ClientOpcode::CreatureQuery => 0x0060,
            ClientOpcode::GameObjectQuery => 0x005E,
            ClientOpcode::GameObjectUse => 0x00B1,
            ClientOpcode::ItemQuerySingle => 0x0056,
            ClientOpcode::UseItem => 0x00AB,
            ClientOpcode::MessageChat => 0x0095,
            ClientOpcode::CastSpell => 0x012E,
            ClientOpcode::AttackSwing => 0x0141,
            ClientOpcode::AttackStop => 0x0142,
            ClientOpcode::SetSheathed => 0x01E0,
            ClientOpcode::CancelAura => 0x0136,
            ClientOpcode::AutoEquipItem => 0x010A,
            ClientOpcode::AutoStoreBagItem => 0x010B,
            ClientOpcode::SwapItemCandidate => 0x010C,
            ClientOpcode::DestroyItem => 0x0111,
            ClientOpcode::AutoStoreLootItem => 0x0108,
            ClientOpcode::Loot => 0x015D,
            ClientOpcode::LootMoney => 0x015E,
            ClientOpcode::LootRelease => 0x015F,
            ClientOpcode::RepopRequest => 0x015A,
            ClientOpcode::ReclaimCorpse => 0x01D2,
            ClientOpcode::SpiritHealerActivate => 0x021C,
            ClientOpcode::MoveStartForward => 0x00B5,
            ClientOpcode::MoveStartBackward => 0x00B6,
            ClientOpcode::MoveStop => 0x00B7,
            ClientOpcode::MoveStartStrafeLeft => 0x00B8,
            ClientOpcode::MoveStartStrafeRight => 0x00B9,
            ClientOpcode::MoveStopStrafe => 0x00BA,
            ClientOpcode::MoveJump => 0x00BB,
            ClientOpcode::MoveStartTurnLeft => 0x00BC,
            ClientOpcode::MoveStartTurnRight => 0x00BD,
            ClientOpcode::MoveStopTurn => 0x00BE,
            ClientOpcode::MoveSetRunMode => 0x00C2,
            ClientOpcode::MoveSetWalkMode => 0x00C3,
            ClientOpcode::MoveFallLand => 0x00C9,
            ClientOpcode::MoveStartSwim => 0x00CA,
            ClientOpcode::MoveStopSwim => 0x00CB,
            ClientOpcode::MoveSetFacing => 0x00DA,
            ClientOpcode::MoveHeartbeat => 0x00EE,
            ClientOpcode::MoveTeleportAck => 0x00C7,
            ClientOpcode::MoveWorldportAck => 0x00DC,
            ClientOpcode::GossipHello => 0x017B,
            ClientOpcode::GossipSelectOption => 0x017C,
            ClientOpcode::ListInventory => 0x019E,
            ClientOpcode::SellItem => 0x01A0,
            ClientOpcode::BuyItem => 0x01A2,
            ClientOpcode::QuestgiverStatusQuery => 0x0182,
            ClientOpcode::QuestgiverStatusMultipleQuery => 0x0416,
            ClientOpcode::QuestgiverHello => 0x0184,
            ClientOpcode::QuestgiverQueryQuest => 0x0186,
            ClientOpcode::QuestgiverAcceptQuest => 0x0189,
            ClientOpcode::QuestgiverCompleteQuest => 0x018A,
            ClientOpcode::QuestgiverChooseReward => 0x018E,
            ClientOpcode::QuestQuery => 0x005C,
            ClientOpcode::QuestPoiQuery => 0x01E3,
            ClientOpcode::CorpseQuery => 0x0216,
            ClientOpcode::GroupInvite => 0x006E,
            ClientOpcode::GroupAccept => 0x0072,
            ClientOpcode::GroupDecline => 0x0073,
            ClientOpcode::GroupDisband => 0x007B,
            ClientOpcode::GroupUninviteGuid => 0x0076,
            ClientOpcode::GroupSetLeader => 0x0078,
            ClientOpcode::GroupSetLootMethod => 0x007A,
            ClientOpcode::GroupUninviteByName => 0x0075,
            ClientOpcode::TrainerList => 0x01B0,
            ClientOpcode::TrainerBuySpell => 0x01B2,
            ClientOpcode::InitiateTrade => 0x0116,
            ClientOpcode::BeginTrade => 0x0117,
            ClientOpcode::BusyTrade => 0x0118,
            ClientOpcode::IgnoreTrade => 0x0119,
            ClientOpcode::AcceptTrade => 0x011A,
            ClientOpcode::UnacceptTrade => 0x011B,
            ClientOpcode::CancelTrade => 0x011C,
            ClientOpcode::SetTradeItem => 0x011D,
            ClientOpcode::ClearTradeItem => 0x011E,
            ClientOpcode::SetTradeGold => 0x011F,
            ClientOpcode::TaxiQueryAvailableNodes => 0x01AC,
            ClientOpcode::ActivateTaxi => 0x01AD,
            ClientOpcode::SendMail => 0x0238,
            ClientOpcode::GetMailList => 0x023A,
            ClientOpcode::MailTakeMoney => 0x0245,
            ClientOpcode::MailTakeItem => 0x0246,
            ClientOpcode::MailMarkAsRead => 0x0247,
            ClientOpcode::MailReturnToSender => 0x0248,
            ClientOpcode::MailDelete => 0x0249,
            ClientOpcode::MailCreateTextItem => 0x024A,
            ClientOpcode::QueryNextMailTime => 0x0284,
            ClientOpcode::GuildQuery => 0x0054,
            ClientOpcode::GuildInvite => 0x0082,
            ClientOpcode::GuildAccept => 0x0084,
            ClientOpcode::GuildDecline => 0x0085,
            ClientOpcode::GuildInfo => 0x0087,
            ClientOpcode::GuildRoster => 0x0089,
            ClientOpcode::GuildPromote => 0x008B,
            ClientOpcode::GuildDemote => 0x008C,
            ClientOpcode::GuildLeave => 0x008D,
            ClientOpcode::GuildRemove => 0x008E,
            ClientOpcode::GuildDisband => 0x008F,
            ClientOpcode::GuildLeader => 0x0090,
            ClientOpcode::GuildMotd => 0x0091,
            ClientOpcode::GuildSetPublicNote => 0x0234,
            ClientOpcode::GuildSetOfficerNote => 0x0235,
            ClientOpcode::GuildInfoText => 0x02FC,
            ClientOpcode::AuctionHello => 0x0255,
            ClientOpcode::AuctionSellItem => 0x0256,
            ClientOpcode::AuctionRemoveItem => 0x0257,
            ClientOpcode::AuctionListItems => 0x0258,
            ClientOpcode::AuctionListOwnerItems => 0x0259,
            ClientOpcode::AuctionPlaceBid => 0x025A,
            ClientOpcode::AuctionListBidderItems => 0x0264,
            ClientOpcode::AuctionListPendingSales => 0x048F,
        }
    }
}

/// Whether a number is one of the movement opcodes that are relayed from one
/// player to those who can see them.
pub open spec fn relayed_movement(opcode: u16) -> bool {
    // Starting, stopping, strafing, turning, pitching and the run/walk switch.
    ||| 0x00B5 <= opcode <= 0x00C3
    // Landing, and entering and leaving the water.
    ||| 0x00C9 <= opcode <= 0x00CB
    // Facing and pitch.
    ||| 0x00DA <= opcode <= 0x00DB
    // The heartbeat.
    ||| opcode == 0x00EE
    // Ascending and descending.
    ||| 0x0359 <= opcode <= 0x035A
    ||| opcode == 0x03A7
}

/// Whether this opcode carries a packed guid and a movement state from another
/// mover.
pub fn is_relayed_movement(opcode: u16) -> (r: bool)
    ensures
        r == relayed_movement(opcode),
{
    (0x00B5 <= opcode && opcode <= 0x00C3) || (0x00C9 <= opcode && opcode <= 0x00CB) || (0x00DA
        <= opcode && opcode <= 0x00DB) || opcode == 0x00EE || (0x0359 <= opcode && opcode
        <= 0x035A) || opcode == 0x03A7
}

/// The name of an incoming opcode, where it has one.
pub open spec fn opcode_name(opcode: u16) -> Option<&'static str> {
    if opcode == server::CHAR_ENUM {
        Some("SMSG_CHAR_ENUM")
    } else if opcode == server::PONG {
        Some("SMSG_PONG")
    } else if opcode == server::AUTH_CHALLENGE {
        Some("SMSG_AUTH_CHALLENGE")
    } else if opcode == server::AUTH_RESPONSE {
        Some("SMSG_AUTH_RESPONSE")
    } else if opcode == server::TUTORIAL_FLAGS {
        Some("SMSG_TUTORIAL_FLAGS")
    } else if opcode == server::ADDON_INFO {
        Some("SMSG_ADDON_INFO")
    } else if opcode == server::CLIENTCACHE_VERSION {
        Some("SMSG_CLIENTCACHE_VERSION")
    } else if opcode == server::LOGIN_VERIFY_WORLD {
        Some("SMSG_LOGIN_VERIFY_WORLD")
    } else if opcode == server::NEW_WORLD {
        Some("SMSG_NEW_WORLD")
    } else if opcode == server::TRANSFER_PENDING {
        Some("SMSG_TRANSFER_PENDING")
    } else if opcode == server::TRANSFER_ABORTED {
        Some("SMSG_TRANSFER_ABORTED")
    } else if opcode == server::LOOT_RESPONSE {
        Some("SMSG_LOOT_RESPONSE")
    } else if opcode == server::LOOT_RELEASE_RESPONSE {
        Some("SMSG_LOOT_RELEASE_RESPONSE")
    } else if opcode == server::LOOT_REMOVED {
        Some("SMSG_LOOT_REMOVED")
    } else if opcode == server::LOOT_CLEAR_MONEY {
        Some("SMSG_LOOT_CLEAR_MONEY")
    } else if opcode == server::GOSSIP_MESSAGE {
        Some("SMSG_GOSSIP_MESSAGE")
    } else if opcode == server::LIST_INVENTORY {
        Some("SMSG_LIST_INVENTORY")
    } else if opcode == server::TRAINER_LIST {
        Some("SMSG_TRAINER_LIST")
    } else if opcode == server::SHOW_TAXI_NODES {
        Some("SMSG_SHOWTAXINODES")
    } else if opcode == server::ACTIVATE_TAXI_REPLY {
        Some("SMSG_ACTIVATETAXIREPLY")
    } else if opcode == server::NEW_TAXI_PATH {
        Some("SMSG_NEW_TAXI_PATH")
    } else if opcode == server::TRAINER_BUY_SUCCEEDED {
        Some("SMSG_TRAINER_BUY_SUCCEEDED")
    } else if opcode == server::TRADE_STATUS {
        Some("SMSG_TRADE_STATUS")
    } else if opcode == server::TRADE_STATUS_EXTENDED {
        Some("SMSG_TRADE_STATUS_EXTENDED")
    } else if opcode == server::SEND_MAIL_RESULT {
        Some("SMSG_SEND_MAIL_RESULT")
    } else if opcode == server::MAIL_LIST_RESULT {
        Some("SMSG_MAIL_LIST_RESULT")
    } else if opcode == server::RECEIVED_MAIL {
        Some("SMSG_RECEIVED_MAIL")
    } else if opcode == server::QUERY_NEXT_MAIL_TIME {
        Some("MSG_QUERY_NEXT_MAIL_TIME")
    } else if opcode == server::SHOW_MAILBOX {
        Some("SMSG_SHOW_MAILBOX")
    } else if opcode == server::AUCTION_HELLO {
        Some("MSG_AUCTION_HELLO")
    } else if opcode == server::AUCTION_COMMAND_RESULT {
        Some("SMSG_AUCTION_COMMAND_RESULT")
    } else if opcode == server::AUCTION_LIST_RESULT {
        Some("SMSG_AUCTION_LIST_RESULT")
    } else if opcode == server::AUCTION_OWNER_LIST_RESULT {
        Some("SMSG_AUCTION_OWNER_LIST_RESULT")
    } else if opcode == server::AUCTION_BIDDER_LIST_RESULT {
        Some("SMSG_AUCTION_BIDDER_LIST_RESULT")
    } else if opcode == server::AUCTION_BIDDER_NOTIFICATION {
        Some("SMSG_AUCTION_BIDDER_NOTIFICATION")
    } else if opcode == server::AUCTION_OWNER_NOTIFICATION {
        Some("SMSG_AUCTION_OWNER_NOTIFICATION")
    } else if opcode == server::AUCTION_REMOVED_NOTIFICATION {
        Some("SMSG_AUCTION_REMOVED_NOTIFICATION")
    } else if opcode == server::AUCTION_LIST_PENDING_SALES {
        Some("SMSG_AUCTION_LIST_PENDING_SALES")
    } else if opcode == server::QUESTGIVER_STATUS {
        Some("SMSG_QUESTGIVER_STATUS")
    } else if opcode == server::QUESTGIVER_STATUS_MULTIPLE {
        Some("SMSG_QUESTGIVER_STATUS_MULTIPLE")
    } else if opcode == server::QUESTGIVER_QUEST_LIST {
        Some("SMSG_QUESTGIVER_QUEST_LIST")
    } else if opcode == server::QUESTGIVER_QUEST_DETAILS {
        Some("SMSG_QUESTGIVER_QUEST_DETAILS")
    } else if opcode == server::QUESTGIVER_REQUEST_ITEMS {
        Some("SMSG_QUESTGIVER_REQUEST_ITEMS")
    } else if opcode == server::QUESTGIVER_OFFER_REWARD {
        Some("SMSG_QUESTGIVER_OFFER_REWARD")
    } else if opcode == server::QUESTGIVER_QUEST_COMPLETE {
        Some("SMSG_QUESTGIVER_QUEST_COMPLETE")
    } else if opcode == server::QUEST_QUERY_RESPONSE {
        Some("SMSG_QUEST_QUERY_RESPONSE")
    } else if opcode == server::QUEST_POI_QUERY_RESPONSE {
        Some("SMSG_QUEST_POI_QUERY_RESPONSE")
    } else if opcode == server::CHAR_CREATE {
        Some("SMSG_CHAR_CREATE")
    } else if opcode == server::CHAR_DELETE {
        Some("SMSG_CHAR_DELETE")
    } else if opcode == server::CHARACTER_LOGIN_FAILED {
        Some("SMSG_CHARACTER_LOGIN_FAILED")
    } else if opcode == server::UPDATE_OBJECT {
        Some("SMSG_UPDATE_OBJECT")
    } else if opcode == server::DESTROY_OBJECT {
        Some("SMSG_DESTROY_OBJECT")
    } else if opcode == server::COMPRESSED_UPDATE_OBJECT {
        Some("SMSG_COMPRESSED_UPDATE_OBJECT")
    } else if opcode == server::TIME_SYNC_REQ {
        Some("SMSG_TIME_SYNC_REQ")
    } else if opcode == server::MOTD {
        Some("SMSG_MOTD")
    } else if opcode == server::ACCOUNT_DATA_TIMES {
        Some("SMSG_ACCOUNT_DATA_TIMES")
    } else if opcode == server::LOGIN_SETTIMESPEED {
        Some("SMSG_LOGIN_SETTIMESPEED")
    } else if opcode == server::MONSTER_MOVE {
        Some("SMSG_MONSTER_MOVE")
    } else if opcode == server::MOVE_START_FORWARD {
        Some("MSG_MOVE_START_FORWARD")
    } else if opcode == server::MOVE_STOP {
        Some("MSG_MOVE_STOP")
    } else if opcode == server::MOVE_HEARTBEAT {
        Some("MSG_MOVE_HEARTBEAT")
    } else if opcode == server::NAME_QUERY_RESPONSE {
        Some("SMSG_NAME_QUERY_RESPONSE")
    } else if opcode == server::CREATURE_QUERY_RESPONSE {
        Some("SMSG_CREATURE_QUERY_RESPONSE")
    } else if opcode == server::GAMEOBJECT_QUERY_RESPONSE {
        Some("SMSG_GAMEOBJECT_QUERY_RESPONSE")
    } else if opcode == server::MESSAGECHAT {
        Some("SMSG_MESSAGECHAT")
    } else if opcode == server::INVENTORY_CHANGE_FAILURE {
        Some("SMSG_INVENTORY_CHANGE_FAILURE")
    } else if opcode == server::INITIAL_SPELLS {
        Some("SMSG_INITIAL_SPELLS")
    } else if opcode == server::CAST_FAILED {
        Some("SMSG_CAST_FAILED")
    } else if opcode == server::SPELL_START {
        Some("SMSG_SPELL_START")
    } else if opcode == server::SPELL_GO {
        Some("SMSG_SPELL_GO")
    } else if opcode == server::SPELL_COOLDOWN {
        Some("SMSG_SPELL_COOLDOWN")
    } else if opcode == server::ATTACK_START {
        Some("SMSG_ATTACKSTART")
    } else if opcode == server::ATTACK_STOP {
        Some("SMSG_ATTACKSTOP")
    } else if opcode == server::ATTACKER_STATE_UPDATE {
        Some("SMSG_ATTACKERSTATEUPDATE")
    } else if opcode == server::ATTACK_SWING_REFUSED_A {
        Some("SMSG_ATTACKSWING_REFUSED(0x0145)")
    } else if opcode == server::ATTACK_SWING_REFUSED_B {
        Some("SMSG_ATTACKSWING_REFUSED(0x0146)")
    } else if opcode == server::POWER_UPDATE {
        Some("SMSG_POWER_UPDATE")
    } else if opcode == server::SPELL_NON_MELEE_DAMAGE_LOG {
        Some("SMSG_SPELLNONMELEEDAMAGELOG")
    } else if opcode == server::THREAT_UPDATE {
        Some("SMSG_THREAT_UPDATE")
    } else if opcode == server::MOVE_TELEPORT_ACK {
        Some("MSG_MOVE_TELEPORT_ACK")
    } else if opcode == server::CORPSE_QUERY {
        Some("MSG_CORPSE_QUERY")
    } else if opcode == server::DEATH_RELEASE_LOC {
        Some("SMSG_DEATH_RELEASE_LOC")
    } else if opcode == server::CORPSE_RECLAIM_DELAY {
        Some("SMSG_CORPSE_RECLAIM_DELAY")
    } else if opcode == server::SPIRIT_HEALER_CONFIRM {
        Some("SMSG_SPIRIT_HEALER_CONFIRM")
    } else if opcode == server::THREAT_REMOVE {
        Some("SMSG_THREAT_REMOVE")
    } else if opcode == server::CANCEL_COMBAT {
        Some("SMSG_CANCEL_COMBAT")
    } else if opcode == server::DURABILITY_DAMAGE_DEATH {
        Some("SMSG_DURABILITY_DAMAGE_DEATH")
    } else if opcode == server::GM_MESSAGECHAT {
        Some("SMSG_GM_MESSAGECHAT")
    } else if opcode == server::GROUP_INVITE {
        Some("SMSG_GROUP_INVITE")
    } else if opcode == server::GROUP_LIST {
        Some("SMSG_GROUP_LIST")
    } else if opcode == server::PARTY_COMMAND_RESULT {
        Some("SMSG_PARTY_COMMAND_RESULT")
    } else if opcode == server::PARTY_MEMBER_STATS {
        Some("SMSG_PARTY_MEMBER_STATS")
    } else if opcode == server::PARTY_MEMBER_STATS_FULL {
        Some("SMSG_PARTY_MEMBER_STATS_FULL")
    } else if opcode == server::GROUP_UNINVITE {
        Some("SMSG_GROUP_UNINVITE")
    } else if opcode == server::GROUP_DESTROYED {
        Some("SMSG_GROUP_DESTROYED")
    } else if opcode == server::GROUP_CANCEL {
        Some("SMSG_GROUP_CANCEL")
    } else if opcode == server::GROUP_DECLINE {
        Some("SMSG_GROUP_DECLINE")
    } else if opcode == server::GROUP_SET_LEADER {
        Some("SMSG_GROUP_SET_LEADER")
    } else if opcode == server::GUILD_QUERY_RESPONSE {
        Some("SMSG_GUILD_QUERY_RESPONSE")
    } else if opcode == server::GUILD_INVITE {
        Some("SMSG_GUILD_INVITE")
    } else if opcode == server::GUILD_INFO {
        Some("SMSG_GUILD_INFO")
    } else if opcode == server::GUILD_ROSTER {
        Some("SMSG_GUILD_ROSTER")
    } else if opcode == server::GUILD_EVENT {
        Some("SMSG_GUILD_EVENT")
    } else if opcode == server::GUILD_COMMAND_RESULT {
        Some("SMSG_GUILD_COMMAND_RESULT")
    } else {
        None
    }
}

fn name_of(opcode: u16) -> (r: Option<&'static str>)
    ensures
        r == opcode_name(opcode),
{
    if opcode == server::CHAR_ENUM {
        Some("SMSG_CHAR_ENUM")
    } else if opcode == server::PONG {
        Some("SMSG_PONG")
    } else if opcode == server::AUTH_CHALLENGE {
        Some("SMSG_AUTH_CHALLENGE")
    } else if opcode == server::AUTH_RESPONSE {
        Some("SMSG_AUTH_RESPONSE")
    } else if opcode == server::TUTORIAL_FLAGS {
        Some("SMSG_TUTORIAL_FLAGS")
    } else if opcode == server::ADDON_INFO {
        Some("SMSG_ADDON_INFO")
    } else if opcode == server::CLIENTCACHE_VERSION {
        Some("SMSG_CLIENTCACHE_VERSION")
    } else if opcode == server::LOGIN_VERIFY_WORLD {
        Some("SMSG_LOGIN_VERIFY_WORLD")
    } else if opcode == server::NEW_WORLD {
        Some("SMSG_NEW_WORLD")
    } else if opcode == server::TRANSFER_PENDING {
        Some("SMSG_TRANSFER_PENDING")
    } else if opcode == server::TRANSFER_ABORTED {
        Some("SMSG_TRANSFER_ABORTED")
    } else if opcode == server::LOOT_RESPONSE {
        Some("SMSG_LOOT_RESPONSE")
    } else if opcode == server::LOOT_RELEASE_RESPONSE {
        Some("SMSG_LOOT_RELEASE_RESPONSE")
    } else if opcode == server::LOOT_REMOVED {
        Some("SMSG_LOOT_REMOVED")
    } else if opcode == server::LOOT_CLEAR_MONEY {
        Some("SMSG_LOOT_CLEAR_MONEY")
    } else if opcode == server::GOSSIP_MESSAGE {
        Some("SMSG_GOSSIP_MESSAGE")
    } else if opcode == server::LIST_INVENTORY {
        Some("SMSG_LIST_INVENTORY")
    } else if opcode == server::TRAINER_LIST {
        Some("SMSG_TRAINER_LIST")
    } else if opcode == server::SHOW_TAXI_NODES {
        Some("SMSG_SHOWTAXINODES")
    } else if opcode == server::ACTIVATE_TAXI_REPLY {
        Some("SMSG_ACTIVATETAXIREPLY")
    } else if opcode == server::NEW_TAXI_PATH {
        Some("SMSG_NEW_TAXI_PATH")
    } else if opcode == server::TRAINER_BUY_SUCCEEDED {
        Some("SMSG_TRAINER_BUY_SUCCEEDED")
    } else if opcode == server::TRADE_STATUS {
        Some("SMSG_TRADE_STATUS")
    } else if opcode == server::TRADE_STATUS_EXTENDED {
        Some("SMSG_TRADE_STATUS_EXTENDED")
    } else if opcode == server::SEND_MAIL_RESULT {
        Some("SMSG_SEND_MAIL_RESULT")
    } else if opcode == server::MAIL_LIST_RESULT {
        Some("SMSG_MAIL_LIST_RESULT")
    } else if opcode == server::RECEIVED_MAIL {
        Some("SMSG_RECEIVED_MAIL")
    } else if opcode == server::QUERY_NEXT_MAIL_TIME {
        Some("MSG_QUERY_NEXT_MAIL_TIME")
    } else if opcode == server::SHOW_MAILBOX {
        Some("SMSG_SHOW_MAILBOX")
    } else if opcode == server::AUCTION_HELLO {
        Some("MSG_AUCTION_HELLO")
    } else if opcode == server::AUCTION_COMMAND_RESULT {
        Some("SMSG_AUCTION_COMMAND_RESULT")
    } else if opcode == server::AUCTION_LIST_RESULT {
        Some("SMSG_AUCTION_LIST_RESULT")
    } else if opcode == server::AUCTION_OWNER_LIST_RESULT {
        Some("SMSG_AUCTION_OWNER_LIST_RESULT")
    } else if opcode == server::AUCTION_BIDDER_LIST_RESULT {
        Some("SMSG_AUCTION_BIDDER_LIST_RESULT")
    } else if opcode == server::AUCTION_BIDDER_NOTIFICATION {
        Some("SMSG_AUCTION_BIDDER_NOTIFICATION")
    } else if opcode == server::AUCTION_OWNER_NOTIFICATION {
        Some("SMSG_AUCTION_OWNER_NOTIFICATION")
    } else if opcode == server::AUCTION_REMOVED_NOTIFICATION {
        Some("SMSG_AUCTION_REMOVED_NOTIFICATION")
    } else if opcode == server::AUCTION_LIST_PENDING_SALES {
        Some("SMSG_AUCTION_LIST_PENDING_SALES")
    } else if opcode == server::QUESTGIVER_STATUS {
        Some("SMSG_QUESTGIVER_STATUS")
    } else if opcode == server::QUESTGIVER_STATUS_MULTIPLE {
        Some("SMSG_QUESTGIVER_STATUS_MULTIPLE")
    } else if opcode == server::QUESTGIVER_QUEST_LIST {
        Some("SMSG_QUESTGIVER_QUEST_LIST")
    } else if opcode == server::QUESTGIVER_QUEST_DETAILS {
        Some("SMSG_QUESTGIVER_QUEST_DETAILS")
    } else if opcode == server::QUESTGIVER_REQUEST_ITEMS {
        Some("SMSG_QUESTGIVER_REQUEST_ITEMS")
    } else if opcode == server::QUESTGIVER_OFFER_REWARD {
        Some("SMSG_QUESTGIVER_OFFER_REWARD")
    } else if opcode == server::QUESTGIVER_QUEST_COMPLETE {
        Some("SMSG_QUESTGIVER_QUEST_COMPLETE")
    } else if opcode == server::QUEST_QUERY_RESPONSE {
        Some("SMSG_QUEST_QUERY_RESPONSE")
    } else if opcode == server::QUEST_POI_QUERY_RESPONSE {
        Some("SMSG_QUEST_POI_QUERY_RESPONSE")
    } else if opcode == server::CHAR_CREATE {
        Some("SMSG_CHAR_CREATE")
    } else if opcode == server::CHAR_DELETE {
        Some("SMSG_CHAR_DELETE")
    } else if opcode == server::CHARACTER_LOGIN_FAILED {
        Some("SMSG_CHARACTER_LOGIN_FAILED")
    } else if opcode == server::UPDATE_OBJECT {
        Some("SMSG_UPDATE_OBJECT")
    } else if opcode == server::DESTROY_OBJECT {
        Some("SMSG_DESTROY_OBJECT")
    } else if opcode == server::COMPRESSED_UPDATE_OBJECT {
        Some("SMSG_COMPRESSED_UPDATE_OBJECT")
    } else if opcode == server::TIME_SYNC_REQ {
        Some("SMSG_TIME_SYNC_REQ")
    } else if opcode == server::MOTD {
        Some("SMSG_MOTD")
    } else if opcode == server::ACCOUNT_DATA_TIMES {
        Some("SMSG_ACCOUNT_DATA_TIMES")
    } else if opcode == server::LOGIN_SETTIMESPEED {
        Some("SMSG_LOGIN_SETTIMESPEED")
    } else if opcode == server::MONSTER_MOVE {
        Some("SMSG_MONSTER_MOVE")
    } else if opcode == server::MOVE_START_FORWARD {
        Some("MSG_MOVE_START_FORWARD")
    } else if opcode == server::MOVE_STOP {
        Some("MSG_MOVE_STOP")
    } else if opcode == server::MOVE_HEARTBEAT {
        Some("MSG_MOVE_HEARTBEAT")
    } else if opcode == server::NAME_QUERY_RESPONSE {
        Some("SMSG_NAME_QUERY_RESPONSE")
    } else if opcode == server::CREATURE_QUERY_RESPONSE {
        Some("SMSG_CREATURE_QUERY_RESPONSE")
    } else if opcode == server::GAMEOBJECT_QUERY_RESPONSE {
        Some("SMSG_GAMEOBJECT_QUERY_RESPONSE")
    } else if opcode == server::MESSAGECHAT {
        Some("SMSG_MESSAGECHAT")
    } else if opcode == server::INVENTORY_CHANGE_FAILURE {
        Some("SMSG_INVENTORY_CHANGE_FAILURE")
    } else if opcode == server::INITIAL_SPELLS {
        Some("SMSG_INITIAL_SPELLS")
    } else if opcode == server::CAST_FAILED {
        Some("SMSG_CAST_FAILED")
    } else if opcode == server::SPELL_START {
        Some("SMSG_SPELL_START")
    } else if opcode == server::SPELL_GO {
        Some("SMSG_SPELL_GO")
    } else if opcode == server::SPELL_COOLDOWN {
        Some("SMSG_SPELL_COOLDOWN")
    } else if opcode == server::ATTACK_START {
        Some("SMSG_ATTACKSTART")
    } else if opcode == server::ATTACK_STOP {
        Some("SMSG_ATTACKSTOP")
    } else if opcode == server::ATTACKER_STATE_UPDATE {
        Some("SMSG_ATTACKERSTATEUPDATE")
    } else if opcode == server::ATTACK_SWING_REFUSED_A {
        Some("SMSG_ATTACKSWING_REFUSED(0x0145)")
    } else if opcode == server::ATTACK_SWING_REFUSED_B {
        Some("SMSG_ATTACKSWING_REFUSED(0x0146)")
    } else if opcode == server::POWER_UPDATE {
        Some("SMSG_POWER_UPDATE")
    } else if opcode == server::SPELL_NON_MELEE_DAMAGE_LOG {
        Some("SMSG_SPELLNONMELEEDAMAGELOG")
    } else if opcode == server::THREAT_UPDATE {
        Some("SMSG_THREAT_UPDATE")
    } else if opcode == server::MOVE_TELEPORT_ACK {
        Some("MSG_MOVE_TELEPORT_ACK")
    } else if opcode == server::CORPSE_QUERY {
        Some("MSG_CORPSE_QUERY")
    } else if opcode == server::DEATH_RELEASE_LOC {
        Some("SMSG_DEATH_RELEASE_LOC")
    } else if opcode == server::CORPSE_RECLAIM_DELAY {
        Some("SMSG_CORPSE_RECLAIM_DELAY")
    } else if opcode == server::SPIRIT_HEALER_CONFIRM {
        Some("SMSG_SPIRIT_HEALER_CONFIRM")
    } else if opcode == server::THREAT_REMOVE {
        Some("SMSG_THREAT_REMOVE")
    } else if opcode == server::CANCEL_COMBAT {
        Some("SMSG_CANCEL_COMBAT")
    } else if opcode == server::DURABILITY_DAMAGE_DEATH {
        Some("SMSG_DURABILITY_DAMAGE_DEATH")
    } else if opcode == server::GM_MESSAGECHAT {
        Some("SMSG_GM_MESSAGECHAT")
    } else if opcode == server::GROUP_INVITE {
        Some("SMSG_GROUP_INVITE")
    } else if opcode == server::GROUP_LIST {
        Some("SMSG_GROUP_LIST")
    } else if opcode == server::PARTY_COMMAND_RESULT {
        Some("SMSG_PARTY_COMMAND_RESULT")
    } else if opcode == server::PARTY_MEMBER_STATS {
        Some("SMSG_PARTY_MEMBER_STATS")
    } else if opcode == server::PARTY_MEMBER_STATS_FULL {
        Some("SMSG_PARTY_MEMBER_STATS_FULL")
    } else if opcode == server::GROUP_UNINVITE {
        Some("SMSG_GROUP_UNINVITE")
    } else if opcode == server::GROUP_DESTROYED {
        Some("SMSG_GROUP_DESTROYED")
    } else if opcode == server::GROUP_CANCEL {
        Some("SMSG_GROUP_CANCEL")
    } else if opcode == server::GROUP_DECLINE {
        Some("SMSG_GROUP_DECLINE")
    } else if opcode == server::GROUP_SET_LEADER {
        Some("SMSG_GROUP_SET_LEADER")
    } else if opcode == server::GUILD_QUERY_RESPONSE {
        Some("SMSG_GUILD_QUERY_RESPONSE")
    } else if opcode == server::GUILD_INVITE {
        Some("SMSG_GUILD_INVITE")
    } else if opcode == server::GUILD_INFO {
        Some("SMSG_GUILD_INFO")
    } else if opcode == server::GUILD_ROSTER {
        Some("SMSG_GUILD_ROSTER")
    } else if opcode == server::GUILD_EVENT {
        Some("SMSG_GUILD_EVENT")
    } else if opcode == server::GUILD_COMMAND_RESULT {
        Some("SMSG_GUILD_COMMAND_RESULT")
    } else {
        None
    }
}

/// What [`describe`] says of an opcode.
pub open spec fn description(opcode: u16) -> Seq<char> {
    match opcode_name(opcode) {
        Some(name) => name@,
        None => if relayed_movement(opcode) {
            "MSG_MOVE_* relayed (0x"@ + hex_padded(opcode as int, 4) + ")"@
        } else {
            "opcode 0x"@ + hex_padded(opcode as int, 4)
        },
    }
}

/// A human-readable name for an incoming opcode, for logs and dumps.
///
/// An opcode without a name renders as its number, four hexadecimal digits
/// wide. A relayed movement opcode says that much about itself as well.
pub fn describe(opcode: u16) -> (r: String)
    ensures
        r@ == description(opcode),
{
    match name_of(opcode) {
        Some(name) => String::from_str(name),
        None => {
            let digits = hex_padded_text(opcode as u64, 4);
            if is_relayed_movement(opcode) {
                let text = String::from_str("MSG_MOVE_* relayed (0x");
                text.concat(digits.as_str()).concat(")")
            } else {
                String::from_str("opcode 0x").concat(digits.as_str())
            }
        },
    }
}

} // verus!
