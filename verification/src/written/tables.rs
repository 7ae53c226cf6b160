//! The numbers of the protocol, and what they are called.
use crate::codec::ZlibFault;
use crate::opcode::{client_code, description, opcode_name, relayed_movement, server, ClientOpcode};
use crate::protocol::{char_result_name, error_text, response_name, Error};
use crate::text::{decimal, hex, hex_padded, numeral, padded};
use crate::update::{fields, movement_flags, object_name, update_flags, ObjectType};
use vstd::prelude::*;

verus! {

/// The number under which each kind of packet leaves.
pub open spec fn leaves_under(opcode: ClientOpcode) -> u32 {
    match opcode {
        ClientOpcode::CharCreate => 0x0036,
        ClientOpcode::CharEnum => 0x0037,
        ClientOpcode::CharDelete => 0x0038,
        ClientOpcode::PlayerLogin => 0x003D,
        ClientOpcode::Ping => 0x01DC,
        ClientOpcode::AuthSession => 0x01ED,
        ClientOpcode::TimeSyncResp => 0x0391,
        ClientOpcode::SetSelection => 0x013D,
        ClientOpcode::NameQuery => 0x0050,
        ClientOpcode::CreatureQuery => 0x0060,
        ClientOpcode::GameObjectQuery => 0x005E,
        ClientOpcode::GameObjectUse => 0x00B1,
        ClientOpcode::ItemQuerySingle => 0x0056,
        ClientOpcode::UseItem => 0x00AB,
        ClientOpcode::MessageChat => 0x0095,
        ClientOpcode::CastSpell => 0x012E,
        ClientOpcode::AttackSwing => 0x0141,
        ClientOpcode::AttackStop => 0x0142,
        ClientOpcode::SetSheathed => 0x01E0,
        ClientOpcode::CancelAura => 0x0136,
        ClientOpcode::AutoEquipItem => 0x010A,
        ClientOpcode::AutoStoreBagItem => 0x010B,
        ClientOpcode::SwapItemCandidate => 0x010C,
        ClientOpcode::DestroyItem => 0x0111,
        ClientOpcode::AutoStoreLootItem => 0x0108,
        ClientOpcode::Loot => 0x015D,
        ClientOpcode::LootMoney => 0x015E,
        ClientOpcode::LootRelease => 0x015F,
        ClientOpcode::RepopRequest => 0x015A,
        ClientOpcode::ReclaimCorpse => 0x01D2,
        ClientOpcode::SpiritHealerActivate => 0x021C,
        ClientOpcode::MoveStartForward => 0x00B5,
        ClientOpcode::MoveStartBackward => 0x00B6,
        ClientOpcode::MoveStop => 0x00B7,
        ClientOpcode::MoveStartStrafeLeft => 0x00B8,
        ClientOpcode::MoveStartStrafeRight => 0x00B9,
        ClientOpcode::MoveStopStrafe => 0x00BA,
        ClientOpcode::MoveJump => 0x00BB,
        ClientOpcode::MoveStartTurnLeft => 0x00BC,
        ClientOpcode::MoveStartTurnRight => 0x00BD,
        ClientOpcode::MoveStopTurn => 0x00BE,
        ClientOpcode::MoveSetRunMode => 0x00C2,
        ClientOpcode::MoveSetWalkMode => 0x00C3,
        ClientOpcode::MoveFallLand => 0x00C9,
        ClientOpcode::MoveStartSwim => 0x00CA,
        ClientOpcode::MoveStopSwim => 0x00CB,
        ClientOpcode::MoveSetFacing => 0x00DA,
        ClientOpcode::MoveHeartbeat => 0x00EE,
        ClientOpcode::MoveTeleportAck => 0x00C7,
        ClientOpcode::MoveWorldportAck => 0x00DC,
        ClientOpcode::GossipHello => 0x017B,
        ClientOpcode::GossipSelectOption => 0x017C,
        ClientOpcode::ListInventory => 0x019E,
        ClientOpcode::SellItem => 0x01A0,
        ClientOpcode::BuyItem => 0x01A2,
        ClientOpcode::QuestgiverStatusQuery => 0x0182,
        ClientOpcode::QuestgiverStatusMultipleQuery => 0x0416,
        ClientOpcode::QuestgiverHello => 0x0184,
        ClientOpcode::QuestgiverQueryQuest => 0x0186,
        ClientOpcode::QuestgiverAcceptQuest => 0x0189,
        ClientOpcode::QuestgiverCompleteQuest => 0x018A,
        ClientOpcode::QuestgiverChooseReward => 0x018E,
        ClientOpcode::QuestQuery => 0x005C,
        ClientOpcode::QuestPoiQuery => 0x01E3,
        ClientOpcode::CorpseQuery => 0x0216,
        ClientOpcode::GroupInvite => 0x006E,
        ClientOpcode::GroupAccept => 0x0072,
        ClientOpcode::GroupDecline => 0x0073,
        ClientOpcode::GroupDisband => 0x007B,
        ClientOpcode::GroupUninviteGuid => 0x0076,
        ClientOpcode::GroupSetLeader => 0x0078,
        ClientOpcode::GroupSetLootMethod => 0x007A,
        ClientOpcode::GroupUninviteByName => 0x0075,
        ClientOpcode::TrainerList => 0x01B0,
        ClientOpcode::TrainerBuySpell => 0x01B2,
        ClientOpcode::InitiateTrade => 0x0116,
        ClientOpcode::BeginTrade => 0x0117,
        ClientOpcode::BusyTrade => 0x0118,
        ClientOpcode::IgnoreTrade => 0x0119,
        ClientOpcode::AcceptTrade => 0x011A,
        ClientOpcode::UnacceptTrade => 0x011B,
        ClientOpcode::CancelTrade => 0x011C,
        ClientOpcode::SetTradeItem => 0x011D,
        ClientOpcode::ClearTradeItem => 0x011E,
        ClientOpcode::SetTradeGold => 0x011F,
        ClientOpcode::TaxiQueryAvailableNodes => 0x01AC,
        ClientOpcode::ActivateTaxi => 0x01AD,
        ClientOpcode::SendMail => 0x0238,
        ClientOpcode::GetMailList => 0x023A,
        ClientOpcode::MailTakeMoney => 0x0245,
        ClientOpcode::MailTakeItem => 0x0246,
        ClientOpcode::MailMarkAsRead => 0x0247,
        ClientOpcode::MailReturnToSender => 0x0248,
        ClientOpcode::MailDelete => 0x0249,
        ClientOpcode::MailCreateTextItem => 0x024A,
        ClientOpcode::QueryNextMailTime => 0x0284,
        ClientOpcode::GuildQuery => 0x0054,
        ClientOpcode::GuildInvite => 0x0082,
        ClientOpcode::GuildAccept => 0x0084,
        ClientOpcode::GuildDecline => 0x0085,
        ClientOpcode::GuildInfo => 0x0087,
        ClientOpcode::GuildRoster => 0x0089,
        ClientOpcode::GuildPromote => 0x008B,
        ClientOpcode::GuildDemote => 0x008C,
        ClientOpcode::GuildLeave => 0x008D,
        ClientOpcode::GuildRemove => 0x008E,
        ClientOpcode::GuildDisband => 0x008F,
        ClientOpcode::GuildLeader => 0x0090,
        ClientOpcode::GuildMotd => 0x0091,
        ClientOpcode::GuildSetPublicNote => 0x0234,
        ClientOpcode::GuildSetOfficerNote => 0x0235,
        ClientOpcode::GuildInfoText => 0x02FC,
        ClientOpcode::AuctionHello => 0x0255,
        ClientOpcode::AuctionSellItem => 0x0256,
        ClientOpcode::AuctionRemoveItem => 0x0257,
        ClientOpcode::AuctionListItems => 0x0258,
        ClientOpcode::AuctionListOwnerItems => 0x0259,
        ClientOpcode::AuctionPlaceBid => 0x025A,
        ClientOpcode::AuctionListBidderItems => 0x0264,
        ClientOpcode::AuctionListPendingSales => 0x048F,
    }
}

/// What leaves, leaves under its own number.
pub proof fn lemma_what_leaves_has_its_number(opcode: ClientOpcode)
    ensures
        client_code(opcode) == leaves_under(opcode),
{
    reveal(client_code);
}

/// The name of what arrives under a number, where it has one.
pub open spec fn arrives_as(opcode: u16) -> Option<&'static str> {
    match opcode {
        0x003B => Some("SMSG_CHAR_ENUM"),
        0x01DD => Some("SMSG_PONG"),
        0x01EC => Some("SMSG_AUTH_CHALLENGE"),
        0x01EE => Some("SMSG_AUTH_RESPONSE"),
        0x00FD => Some("SMSG_TUTORIAL_FLAGS"),
        0x02EF => Some("SMSG_ADDON_INFO"),
        0x04AB => Some("SMSG_CLIENTCACHE_VERSION"),
        0x0236 => Some("SMSG_LOGIN_VERIFY_WORLD"),
        0x003E => Some("SMSG_NEW_WORLD"),
        0x003F => Some("SMSG_TRANSFER_PENDING"),
        0x0040 => Some("SMSG_TRANSFER_ABORTED"),
        0x0160 => Some("SMSG_LOOT_RESPONSE"),
        0x0161 => Some("SMSG_LOOT_RELEASE_RESPONSE"),
        0x0162 => Some("SMSG_LOOT_REMOVED"),
        0x0165 => Some("SMSG_LOOT_CLEAR_MONEY"),
        0x017D => Some("SMSG_GOSSIP_MESSAGE"),
        0x019F => Some("SMSG_LIST_INVENTORY"),
        0x01B1 => Some("SMSG_TRAINER_LIST"),
        0x01A9 => Some("SMSG_SHOWTAXINODES"),
        0x01AE => Some("SMSG_ACTIVATETAXIREPLY"),
        0x01AF => Some("SMSG_NEW_TAXI_PATH"),
        0x01B3 => Some("SMSG_TRAINER_BUY_SUCCEEDED"),
        0x0120 => Some("SMSG_TRADE_STATUS"),
        0x0121 => Some("SMSG_TRADE_STATUS_EXTENDED"),
        0x0239 => Some("SMSG_SEND_MAIL_RESULT"),
        0x023B => Some("SMSG_MAIL_LIST_RESULT"),
        0x0285 => Some("SMSG_RECEIVED_MAIL"),
        0x0284 => Some("MSG_QUERY_NEXT_MAIL_TIME"),
        0x0297 => Some("SMSG_SHOW_MAILBOX"),
        0x0255 => Some("MSG_AUCTION_HELLO"),
        0x025B => Some("SMSG_AUCTION_COMMAND_RESULT"),
        0x025C => Some("SMSG_AUCTION_LIST_RESULT"),
        0x025D => Some("SMSG_AUCTION_OWNER_LIST_RESULT"),
        0x0265 => Some("SMSG_AUCTION_BIDDER_LIST_RESULT"),
        0x025E => Some("SMSG_AUCTION_BIDDER_NOTIFICATION"),
        0x025F => Some("SMSG_AUCTION_OWNER_NOTIFICATION"),
        0x028D => Some("SMSG_AUCTION_REMOVED_NOTIFICATION"),
        0x0490 => Some("SMSG_AUCTION_LIST_PENDING_SALES"),
        0x0183 => Some("SMSG_QUESTGIVER_STATUS"),
        0x0417 => Some("SMSG_QUESTGIVER_STATUS_MULTIPLE"),
        0x0185 => Some("SMSG_QUESTGIVER_QUEST_LIST"),
        0x0188 => Some("SMSG_QUESTGIVER_QUEST_DETAILS"),
        0x018B => Some("SMSG_QUESTGIVER_REQUEST_ITEMS"),
        0x018D => Some("SMSG_QUESTGIVER_OFFER_REWARD"),
        0x0191 => Some("SMSG_QUESTGIVER_QUEST_COMPLETE"),
        0x005D => Some("SMSG_QUEST_QUERY_RESPONSE"),
        0x01E4 => Some("SMSG_QUEST_POI_QUERY_RESPONSE"),
        0x003A => Some("SMSG_CHAR_CREATE"),
        0x003C => Some("SMSG_CHAR_DELETE"),
        0x0041 => Some("SMSG_CHARACTER_LOGIN_FAILED"),
        0x00A9 => Some("SMSG_UPDATE_OBJECT"),
        0x00AA => Some("SMSG_DESTROY_OBJECT"),
        0x01F6 => Some("SMSG_COMPRESSED_UPDATE_OBJECT"),
        0x0390 => Some("SMSG_TIME_SYNC_REQ"),
        0x033D => Some("SMSG_MOTD"),
        0x0209 => Some("SMSG_ACCOUNT_DATA_TIMES"),
        0x0042 => Some("SMSG_LOGIN_SETTIMESPEED"),
        0x00DD => Some("SMSG_MONSTER_MOVE"),
        0x00B5 => Some("MSG_MOVE_START_FORWARD"),
        0x00B7 => Some("MSG_MOVE_STOP"),
        0x00EE => Some("MSG_MOVE_HEARTBEAT"),
        0x0051 => Some("SMSG_NAME_QUERY_RESPONSE"),
        0x0061 => Some("SMSG_CREATURE_QUERY_RESPONSE"),
        0x005F => Some("SMSG_GAMEOBJECT_QUERY_RESPONSE"),
        0x0096 => Some("SMSG_MESSAGECHAT"),
        0x0112 => Some("SMSG_INVENTORY_CHANGE_FAILURE"),
        0x012A => Some("SMSG_INITIAL_SPELLS"),
        0x0130 => Some("SMSG_CAST_FAILED"),
        0x0131 => Some("SMSG_SPELL_START"),
        0x0132 => Some("SMSG_SPELL_GO"),
        0x0134 => Some("SMSG_SPELL_COOLDOWN"),
        0x0143 => Some("SMSG_ATTACKSTART"),
        0x0144 => Some("SMSG_ATTACKSTOP"),
        0x014A => Some("SMSG_ATTACKERSTATEUPDATE"),
        0x0145 => Some("SMSG_ATTACKSWING_REFUSED(0x0145)"),
        0x0146 => Some("SMSG_ATTACKSWING_REFUSED(0x0146)"),
        0x0480 => Some("SMSG_POWER_UPDATE"),
        0x0250 => Some("SMSG_SPELLNONMELEEDAMAGELOG"),
        0x0483 => Some("SMSG_THREAT_UPDATE"),
        0x00C7 => Some("MSG_MOVE_TELEPORT_ACK"),
        0x0216 => Some("MSG_CORPSE_QUERY"),
        0x0378 => Some("SMSG_DEATH_RELEASE_LOC"),
        0x0269 => Some("SMSG_CORPSE_RECLAIM_DELAY"),
        0x0222 => Some("SMSG_SPIRIT_HEALER_CONFIRM"),
        0x0484 => Some("SMSG_THREAT_REMOVE"),
        0x014E => Some("SMSG_CANCEL_COMBAT"),
        0x02BD => Some("SMSG_DURABILITY_DAMAGE_DEATH"),
        0x03B3 => Some("SMSG_GM_MESSAGECHAT"),
        0x006F => Some("SMSG_GROUP_INVITE"),
        0x007D => Some("SMSG_GROUP_LIST"),
        0x007F => Some("SMSG_PARTY_COMMAND_RESULT"),
        0x007E => Some("SMSG_PARTY_MEMBER_STATS"),
        0x02F2 => Some("SMSG_PARTY_MEMBER_STATS_FULL"),
        0x0077 => Some("SMSG_GROUP_UNINVITE"),
        0x007C => Some("SMSG_GROUP_DESTROYED"),
        0x0071 => Some("SMSG_GROUP_CANCEL"),
        0x0074 => Some("SMSG_GROUP_DECLINE"),
        0x0079 => Some("SMSG_GROUP_SET_LEADER"),
        0x0055 => Some("SMSG_GUILD_QUERY_RESPONSE"),
        0x0083 => Some("SMSG_GUILD_INVITE"),
        0x0088 => Some("SMSG_GUILD_INFO"),
        0x008A => Some("SMSG_GUILD_ROSTER"),
        0x0092 => Some("SMSG_GUILD_EVENT"),
        0x0093 => Some("SMSG_GUILD_COMMAND_RESULT"),
        _ => None,
    }
}

/// What arrives is called by its own name, and by its number where it has
/// none.
pub proof fn lemma_what_arrives_has_its_name(opcode: u16)
    ensures
        opcode_name(opcode) == arrives_as(opcode),
        arrives_as(opcode) matches Some(name) ==> description(opcode) == name@,
        arrives_as(opcode) is None && !relayed_movement(opcode) ==> description(opcode)
            == "opcode 0x"@ + hex_padded(opcode as int, 4),
{
}

/// What is folded into the world arrives under these numbers.
pub proof fn lemma_arrivals_have_their_numbers()
    ensures
        server::ACCOUNT_DATA_TIMES == 0x0209,
        server::ACTIVATE_TAXI_REPLY == 0x01AE,
        server::ADDON_INFO == 0x02EF,
        server::ATTACKER_STATE_UPDATE == 0x014A,
        server::ATTACK_START == 0x0143,
        server::ATTACK_STOP == 0x0144,
        server::ATTACK_SWING_REFUSED_A == 0x0145,
        server::ATTACK_SWING_REFUSED_B == 0x0146,
        server::AUCTION_BIDDER_LIST_RESULT == 0x0265,
        server::AUCTION_BIDDER_NOTIFICATION == 0x025E,
        server::AUCTION_COMMAND_RESULT == 0x025B,
        server::AUCTION_HELLO == 0x0255,
        server::AUCTION_LIST_PENDING_SALES == 0x0490,
        server::AUCTION_LIST_RESULT == 0x025C,
        server::AUCTION_OWNER_LIST_RESULT == 0x025D,
        server::AUCTION_OWNER_NOTIFICATION == 0x025F,
        server::AUCTION_REMOVED_NOTIFICATION == 0x028D,
        server::AURA_UPDATE == 0x0496,
        server::AURA_UPDATE_ALL == 0x0495,
        server::AUTH_CHALLENGE == 0x01EC,
        server::AUTH_RESPONSE == 0x01EE,
        server::BIND_POINT_UPDATE == 0x0155,
        server::CANCEL_COMBAT == 0x014E,
        server::CAST_FAILED == 0x0130,
        server::CHARACTER_LOGIN_FAILED == 0x0041,
        server::CHAR_CREATE == 0x003A,
        server::CHAR_DELETE == 0x003C,
        server::CHAR_ENUM == 0x003B,
        server::CLIENTCACHE_VERSION == 0x04AB,
        server::COMPRESSED_UPDATE_OBJECT == 0x01F6,
        server::CORPSE_QUERY == 0x0216,
        server::CORPSE_RECLAIM_DELAY == 0x0269,
        server::CREATURE_QUERY_RESPONSE == 0x0061,
        server::DEATH_RELEASE_LOC == 0x0378,
        server::DESTROY_OBJECT == 0x00AA,
        server::DURABILITY_DAMAGE_DEATH == 0x02BD,
        server::ENVIRONMENTAL_DAMAGE_LOG == 0x01FC,
        server::GAMEOBJECT_QUERY_RESPONSE == 0x005F,
        server::GM_MESSAGECHAT == 0x03B3,
        server::GOSSIP_MESSAGE == 0x017D,
        server::GROUP_CANCEL == 0x0071,
        server::GROUP_DECLINE == 0x0074,
        server::GROUP_DESTROYED == 0x007C,
        server::GROUP_INVITE == 0x006F,
        server::GROUP_LIST == 0x007D,
        server::GROUP_SET_LEADER == 0x0079,
        server::GROUP_UNINVITE == 0x0077,
        server::GUILD_COMMAND_RESULT == 0x0093,
        server::GUILD_EVENT == 0x0092,
        server::GUILD_INFO == 0x0088,
        server::GUILD_INVITE == 0x0083,
        server::GUILD_QUERY_RESPONSE == 0x0055,
        server::GUILD_ROSTER == 0x008A,
        server::INITIAL_SPELLS == 0x012A,
        server::INVENTORY_CHANGE_FAILURE == 0x0112,
        server::ITEM_QUERY_SINGLE_RESPONSE == 0x0058,
        server::LEVELUP_INFO == 0x01D4,
        server::LIST_INVENTORY == 0x019F,
        server::LOGIN_SETTIMESPEED == 0x0042,
        server::LOGIN_VERIFY_WORLD == 0x0236,
        server::LOOT_CLEAR_MONEY == 0x0165,
        server::LOOT_RELEASE_RESPONSE == 0x0161,
        server::LOOT_REMOVED == 0x0162,
        server::LOOT_RESPONSE == 0x0160,
        server::MAIL_LIST_RESULT == 0x023B,
        server::MESSAGECHAT == 0x0096,
        server::MONSTER_MOVE == 0x00DD,
        server::MOTD == 0x033D,
        server::MOVE_HEARTBEAT == 0x00EE,
        server::MOVE_START_FORWARD == 0x00B5,
        server::MOVE_STOP == 0x00B7,
        server::MOVE_TELEPORT_ACK == 0x00C7,
        server::NAME_QUERY_RESPONSE == 0x0051,
        server::NEW_TAXI_PATH == 0x01AF,
        server::NEW_WORLD == 0x003E,
        server::PARTY_COMMAND_RESULT == 0x007F,
        server::PARTY_MEMBER_STATS == 0x007E,
        server::PARTY_MEMBER_STATS_FULL == 0x02F2,
        server::PAUSE_MIRROR_TIMER == 0x01DA,
        server::PONG == 0x01DD,
        server::POWER_UPDATE == 0x0480,
        server::QUERY_NEXT_MAIL_TIME == 0x0284,
        server::QUESTGIVER_OFFER_REWARD == 0x018D,
        server::QUESTGIVER_QUEST_COMPLETE == 0x0191,
        server::QUESTGIVER_QUEST_DETAILS == 0x0188,
        server::QUESTGIVER_QUEST_LIST == 0x0185,
        server::QUESTGIVER_REQUEST_ITEMS == 0x018B,
        server::QUESTGIVER_STATUS == 0x0183,
        server::QUESTGIVER_STATUS_MULTIPLE == 0x0417,
        server::QUEST_POI_QUERY_RESPONSE == 0x01E4,
        server::QUEST_QUERY_RESPONSE == 0x005D,
        server::RECEIVED_MAIL == 0x0285,
        server::SEND_MAIL_RESULT == 0x0239,
        server::SHOW_MAILBOX == 0x0297,
        server::SHOW_TAXI_NODES == 0x01A9,
        server::SPELL_COOLDOWN == 0x0134,
        server::SPELL_GO == 0x0132,
        server::SPELL_NON_MELEE_DAMAGE_LOG == 0x0250,
        server::SPELL_START == 0x0131,
        server::SPIRIT_HEALER_CONFIRM == 0x0222,
        server::START_MIRROR_TIMER == 0x01D9,
        server::STOP_MIRROR_TIMER == 0x01DB,
        server::THREAT_REMOVE == 0x0484,
        server::THREAT_UPDATE == 0x0483,
        server::TIME_SYNC_REQ == 0x0390,
        server::TRADE_STATUS == 0x0120,
        server::TRADE_STATUS_EXTENDED == 0x0121,
        server::TRAINER_BUY_SUCCEEDED == 0x01B3,
        server::TRAINER_LIST == 0x01B1,
        server::TRANSFER_ABORTED == 0x0040,
        server::TRANSFER_PENDING == 0x003F,
        server::TUTORIAL_FLAGS == 0x00FD,
        server::UPDATE_COMBO_POINTS == 0x039D,
        server::UPDATE_OBJECT == 0x00A9,
        server::WEATHER == 0x02F4,
{
}

/// The fields of objects, and the bits of their flags.
pub proof fn lemma_fields_and_flags_have_their_numbers()
    ensures
        fields::OBJECT_GUID == 0x00,
        fields::OBJECT_TYPE == 0x02,
        fields::OBJECT_ENTRY == 0x03,
        fields::OBJECT_SCALE == 0x04,
        fields::UNIT_TARGET == 0x12,
        fields::UNIT_BYTES_0 == 0x17,
        fields::UNIT_HEALTH == 0x18,
        fields::UNIT_POWER1 == 0x19,
        fields::UNIT_MAX_HEALTH == 0x20,
        fields::UNIT_MAX_POWER1 == 0x21,
        fields::UNIT_LEVEL == 0x36,
        fields::UNIT_FACTION == 0x37,
        fields::UNIT_FLAGS == 0x3B,
        fields::UNIT_DISPLAY_ID == 0x43,
        fields::UNIT_NATIVE_DISPLAY_ID == 0x44,
        fields::UNIT_BYTES_1 == 0x4A,
        fields::UNIT_BYTES_2 == 0x7A,
        fields::GAMEOBJECT_DISPLAY_ID == 0x08,
        fields::PLAYER_BYTES == 0x99,
        fields::PLAYER_GUILDID == 0x97,
        fields::PLAYER_GUILDRANK == 0x98,
        fields::PLAYER_BYTES_2 == 0x9A,
        fields::PLAYER_QUEST_LOG == 0x9E,
        fields::QUEST_LOG_STRIDE == 5,
        fields::QUEST_LOG_STATE == 1,
        fields::QUEST_LOG_SLOTS == 25,
        fields::QUEST_LOG_COUNTS == 2,
        fields::COUNTERS_PER_FIELD == 2,
        fields::QUEST_LOG_OBJECTIVES == 4,
        fields::PLAYER_VISIBLE_ITEM_ENTRY_HEAD == 0x11b,
        fields::VISIBLE_ITEM_STRIDE == 2,
        fields::POWER_COUNT == 7,
        fields::PLAYER_FIELD_BYTES == 0x4AD,
        fields::PLAYER_RELEASE_TIMER_BIT == 0x08,
        fields::CORPSE_OWNER == 0x06,
        fields::PLAYER_GHOST == 0x96,
        fields::PLAYER_GHOST_BIT == 0x10,
        fields::PLAYER_FIELD_INV_SLOT_HEAD == 0x0144,
        fields::INV_SLOT_STRIDE == 2,
        fields::ITEM_GUID_HIGH == 0x4000_0000,
        fields::PLAYER_FIELD_COINAGE == 0x0492,
        fields::PLAYER_EXPLORED_ZONES == 0x0411,
        fields::EXPLORED_ZONES_WORDS == 128,
        fields::UNIT_NPC_FLAGS == 0x52,
        fields::UNIT_DYNAMIC_FLAGS == 0x4F,
        fields::UNIT_DYNFLAG_LOOTABLE == 0x1,
        fields::ITEM_FIELD_STACK_COUNT == 0x0E,
        fields::CONTAINER_FIELD_NUM_SLOTS == 0x40,
        fields::CONTAINER_FIELD_SLOT_1 == 0x42,
        fields::ITEM_FIELD_OWNER == 0x06,
        fields::ITEM_FIELD_CONTAINED == 0x08,
        movement_flags::FORWARD == 0x0000_0001,
        movement_flags::BACKWARD == 0x0000_0002,
        movement_flags::STRAFE_LEFT == 0x0000_0004,
        movement_flags::STRAFE_RIGHT == 0x0000_0008,
        movement_flags::WALKING == 0x0000_0100,
        movement_flags::ON_TRANSPORT == 0x0000_0200,
        movement_flags::FALLING == 0x0000_1000,
        movement_flags::SWIMMING == 0x0020_0000,
        movement_flags::FLYING == 0x0200_0000,
        movement_flags::SPLINE_ELEVATION == 0x0400_0000,
        movement_flags::SPLINE_ENABLED == 0x0800_0000,
        update_flags::SELF == 0x0001,
        update_flags::TRANSPORT == 0x0002,
        update_flags::HAS_TARGET == 0x0004,
        update_flags::UNKNOWN == 0x0008,
        update_flags::LOW_GUID == 0x0010,
        update_flags::LIVING == 0x0020,
        update_flags::STATIONARY_POSITION == 0x0040,
        update_flags::VEHICLE == 0x0080,
        update_flags::POSITION == 0x0100,
        update_flags::ROTATION == 0x0200,
{
}

/// What an answer to a session request means.
pub open spec fn session_answer(code: u8) -> &'static str {
    match code {
        0x0C => "ok",
        0x0D => "authentication failed",
        0x0E => "rejected",
        0x0F => "bad server proof",
        0x10 => "server unavailable",
        0x11 => "internal server error",
        0x14 => "client build rejected",
        0x15 => "unknown account",
        0x16 => "incorrect password",
        0x17 => "session expired",
        0x18 => "server shutting down",
        0x19 => "already logging in",
        0x1A => "logon server not found",
        0x1C => "account banned",
        0x1D => "account already online",
        0x1E => "account out of time",
        0x1F => "database busy",
        0x20 => "account suspended",
        0x21 => "blocked by parental controls",
        _ => "refused for an unrecognised reason",
    }
}

/// What an answer to a creation or a deletion means.
pub open spec fn character_answer(code: u8) -> &'static str {
    match code {
        0x2E => "creation in progress",
        0x2F => "created",
        0x30 => "server error",
        0x31 => "creation failed",
        0x32 => "that name is already taken",
        0x33 => "character creation is disabled",
        0x34 => "the realm does not allow both factions on one account",
        0x35 => "the realm is full",
        0x36 => "the account is at its character limit",
        0x39 => "the account lacks the required expansion",
        0x3A => "that class needs an expansion the account lacks",
        0x3B => "that class needs an existing level 55 character",
        0x46 => "deletion in progress",
        0x47 => "deleted",
        0x48 => "deletion failed",
        _ => "an unrecognised outcome",
    }
}

/// The answers are described in words.
pub proof fn lemma_answers_are_put_into_words(code: u8)
    ensures
        response_name(code) == session_answer(code),
        char_result_name(code) == character_answer(code),
{
}

/// An error in words: what was read, what went wrong, and the numbers.
pub open spec fn in_words(error: Error) -> Seq<char> {
    match error {
        Error::Truncated { what, at, need, len } => {
            what@ + ": needed "@ + decimal(need as int) + " bytes at offset "@ + decimal(at as int)
                + ", packet holds "@ + decimal(len as int)
        },
        Error::Trailing { what, got } => {
            what@ + ": "@ + decimal(got as int) + " trailing bytes left unread"@
        },
        Error::Oversized { got } => {
            "packet claims "@ + decimal(got as int)
                + " bytes, over the 1048576-byte limit; the header cipher is almost certainly keyed wrong"@
        },
        Error::Undersized { got } => {
            "packet header claims "@ + decimal(got as int)
                + " bytes, too few to hold even an opcode"@
        },
        Error::UnexpectedOpcode { expected, got } => {
            "expected "@ + expected@ + ", got "@ + description(got)
        },
        Error::Refused(reason) => "server refused the session: "@ + reason@,
        Error::UnterminatedString { what } => "string field "@ + what@ + " is not terminated"@,
        Error::Compress(ZlibFault::Incomplete) => "compression failed: incomplete deflate stream"@,
        Error::Compress(ZlibFault::Corrupt) => "compression failed: corrupt deflate stream"@,
        Error::CompressedLength { declared, got } => {
            "compressed payload declared "@ + decimal(declared as int) + " bytes but expanded to "@
                + decimal(got as int)
        },
        Error::UnknownUpdateType { got } => "unknown object update type "@ + decimal(got as int),
        Error::UnknownObjectType { got } => "unknown object type "@ + decimal(got as int),
        Error::UnsupportedSpellTarget { what, flags } => {
            what@ + ": target flags 0x"@ + hex(flags as int)
                + " are not a shape this parser has seen live"@
        },
        Error::UnconfirmedSpellMisses { count } => {
            "SMSG_SPELL_GO: "@ + decimal(count as int)
                + " miss entries, but no live capture has ever carried one -- their shape is unconfirmed"@
        },
        Error::UnconfirmedSwingDamageBlocks { count } => {
            "SMSG_ATTACKERSTATEUPDATE: "@ + decimal(count as int)
                + " damage blocks. Every captured swing carried exactly one, and the per-block width cannot be separated from the packet's tail until one carries a different number -- see `combat::MeleeSwing`"@
        },
        Error::UnknownPowerType { got } => {
            "SMSG_POWER_UPDATE: power type "@ + decimal(got as int)
                + " is past the end of the power array"@
        },
        Error::VendorRowCount { count, expected, got } => {
            "SMSG_LIST_INVENTORY: "@ + decimal(count as int) + " rows need "@
                + decimal(expected as int) + " bytes but the body has "@ + decimal(got as int)
                + " left -- the row count and the body disagree, so the header is not where this parser thinks"@
        },
        Error::TrainerRowCount { count, expected, got } => {
            "SMSG_TRAINER_LIST: "@ + decimal(count as int) + " spells need at least "@
                + decimal(expected as int) + " bytes but the body has "@ + decimal(got as int)
                + " left -- the row count and the body disagree, so the header is not where this parser thinks"@
        },
        Error::TradeSlotOutOfOrder { expected, got } => {
            "SMSG_TRADE_STATUS_EXTENDED: slot record "@ + decimal(got as int) + " where "@
                + decimal(expected as int) + " was due"@
        },
    }
}

/// An error says what went wrong, with every number in its place.
pub proof fn lemma_errors_are_put_into_words(error: Error)
    ensures
        error_text(error) == in_words(error),
{
}

/// The kinds of objects are called by their names.
pub proof fn lemma_kinds_have_their_names()
    ensures
        object_name(ObjectType::Object) == "object",
        object_name(ObjectType::Item) == "item",
        object_name(ObjectType::Container) == "container",
        object_name(ObjectType::Unit) == "unit",
        object_name(ObjectType::Player) == "player",
        object_name(ObjectType::GameObject) == "game object",
        object_name(ObjectType::DynamicObject) == "dynamic object",
        object_name(ObjectType::Corpse) == "corpse",
{
}

/// What a digit counts.
pub open spec fn counts(sign: u8) -> int {
    if 0x30 <= sign <= 0x39 {
        sign - 0x30
    } else {
        sign - 0x61 + 10
    }
}

/// Whether a sign is a digit of a base: from zero to nine, and from a on.
pub open spec fn is_digit(sign: u8, base: int) -> bool {
    (0x30 <= sign <= 0x39 || 0x61 <= sign <= 0x66) && counts(sign) < base
}

/// What a row of digits counts, the last being the units.
pub open spec fn total(signs: Seq<u8>, base: int) -> int
    decreases signs.len(),
{
    if signs.len() == 0 {
        0
    } else {
        base * total(signs.drop_last(), base) + counts(signs.last())
    }
}

/// A number that is written out counts what it is, has no needless zero in
/// front, and is made of digits.
pub proof fn lemma_a_numeral_counts_its_number(n: int, base: int, i: int)
    requires
        n >= 0,
        base == 10 || base == 16,
    ensures
        total(numeral(n, base), base) == n,
        numeral(n, base).len() > 0,
        n > 0 ==> numeral(n, base)[0] != 0x30,
        0 <= i < numeral(n, base).len() ==> is_digit(numeral(n, base)[i], base),
    decreases n,
{
    let signs = numeral(n, base);
    reveal_with_fuel(total, 2);
    if n >= base {
        lemma_a_numeral_counts_its_number(n / base, base, i);
        assert(signs.drop_last() =~= numeral(n / base, base));
        assert(n == base * (n / base) + n % base);
        assert(signs[0] == numeral(n / base, base)[0]);
        assert(n / base > 0);
    } else {
        assert(signs.drop_last() =~= seq![]);
    }
}

/// A number that is written out with a number of digits has that many, and
/// counts what it is where they are enough.
pub proof fn lemma_a_padded_numeral_counts_its_number(n: int, width: nat, i: int)
    requires
        0 <= n,
        width == 4 ==> n < 0x1_0000,
        width == 3 ==> n < 0x1000,
        width == 2 ==> n < 0x100,
        width == 1 ==> n < 0x10,
        width == 0 ==> n == 0,
        width <= 4,
    ensures
        padded(n, 16, width).len() == width,
        total(padded(n, 16, width), 16) == n,
        0 <= i < width ==> is_digit(padded(n, 16, width)[i], 16),
    decreases width,
{
    if width > 0 {
        let signs = padded(n, 16, width);
        lemma_a_padded_numeral_counts_its_number(n / 16, (width - 1) as nat, i);
        assert(signs.drop_last() =~= padded(n / 16, 16, (width - 1) as nat));
    }
}

} // verus!
