//! The server-to-client opcodes this client reacts to, 16 bits wide on the
//! wire.
use vstd::prelude::*;

verus! {

pub const CHAR_ENUM: u16 = 0x003B;

pub const PONG: u16 = 0x01DD;

pub const AUTH_CHALLENGE: u16 = 0x01EC;

pub const AUTH_RESPONSE: u16 = 0x01EE;

pub const TUTORIAL_FLAGS: u16 = 0x00FD;

pub const ADDON_INFO: u16 = 0x02EF;

pub const CLIENTCACHE_VERSION: u16 = 0x04AB;

pub const LOGIN_VERIFY_WORLD: u16 = 0x0236;

pub const NEW_WORLD: u16 = 0x003E;

pub const TRANSFER_PENDING: u16 = 0x003F;

pub const TRANSFER_ABORTED: u16 = 0x0040;

pub const LOOT_RESPONSE: u16 = 0x0160;

pub const LOOT_RELEASE_RESPONSE: u16 = 0x0161;

pub const LOOT_REMOVED: u16 = 0x0162;

pub const LOOT_CLEAR_MONEY: u16 = 0x0165;

pub const GOSSIP_MESSAGE: u16 = 0x017D;

pub const LIST_INVENTORY: u16 = 0x019F;

pub const TRAINER_LIST: u16 = 0x01B1;

pub const TRAINER_BUY_SUCCEEDED: u16 = 0x01B3;

pub const TRADE_STATUS: u16 = 0x0120;

pub const TRADE_STATUS_EXTENDED: u16 = 0x0121;

pub const SHOW_TAXI_NODES: u16 = 0x01A9;

pub const ACTIVATE_TAXI_REPLY: u16 = 0x01AE;

pub const NEW_TAXI_PATH: u16 = 0x01AF;

pub const SEND_MAIL_RESULT: u16 = 0x0239;

pub const MAIL_LIST_RESULT: u16 = 0x023B;

pub const RECEIVED_MAIL: u16 = 0x0285;

pub const QUERY_NEXT_MAIL_TIME: u16 = 0x0284;

pub const SHOW_MAILBOX: u16 = 0x0297;

pub const AUCTION_HELLO: u16 = 0x0255;

pub const AUCTION_COMMAND_RESULT: u16 = 0x025B;

pub const AUCTION_LIST_RESULT: u16 = 0x025C;

pub const AUCTION_OWNER_LIST_RESULT: u16 = 0x025D;

pub const AUCTION_BIDDER_LIST_RESULT: u16 = 0x0265;

pub const AUCTION_BIDDER_NOTIFICATION: u16 = 0x025E;

pub const AUCTION_OWNER_NOTIFICATION: u16 = 0x025F;

pub const AUCTION_REMOVED_NOTIFICATION: u16 = 0x028D;

pub const AUCTION_LIST_PENDING_SALES: u16 = 0x0490;

pub const GUILD_QUERY_RESPONSE: u16 = 0x0055;

pub const GUILD_INVITE: u16 = 0x0083;

pub const GUILD_INFO: u16 = 0x0088;

pub const GUILD_ROSTER: u16 = 0x008A;

pub const GUILD_EVENT: u16 = 0x0092;

pub const GUILD_COMMAND_RESULT: u16 = 0x0093;

pub const QUESTGIVER_STATUS: u16 = 0x0183;

pub const QUESTGIVER_STATUS_MULTIPLE: u16 = 0x0417;

pub const QUESTGIVER_QUEST_LIST: u16 = 0x0185;

pub const QUESTGIVER_QUEST_DETAILS: u16 = 0x0188;

pub const QUESTGIVER_REQUEST_ITEMS: u16 = 0x018B;

pub const QUESTGIVER_OFFER_REWARD: u16 = 0x018D;

pub const QUESTGIVER_QUEST_COMPLETE: u16 = 0x0191;

pub const QUEST_QUERY_RESPONSE: u16 = 0x005D;

pub const QUEST_POI_QUERY_RESPONSE: u16 = 0x01E4;

pub const WEATHER: u16 = 0x02F4;

pub const LEVELUP_INFO: u16 = 0x01D4;

pub const START_MIRROR_TIMER: u16 = 0x01D9;

pub const PAUSE_MIRROR_TIMER: u16 = 0x01DA;

pub const STOP_MIRROR_TIMER: u16 = 0x01DB;

pub const ENVIRONMENTAL_DAMAGE_LOG: u16 = 0x01FC;

pub const CHAR_CREATE: u16 = 0x003A;

pub const CHAR_DELETE: u16 = 0x003C;

pub const CHARACTER_LOGIN_FAILED: u16 = 0x0041;

pub const UPDATE_OBJECT: u16 = 0x00A9;

pub const DESTROY_OBJECT: u16 = 0x00AA;

pub const COMPRESSED_UPDATE_OBJECT: u16 = 0x01F6;

pub const TIME_SYNC_REQ: u16 = 0x0390;

pub const MOTD: u16 = 0x033D;

pub const ACCOUNT_DATA_TIMES: u16 = 0x0209;

pub const LOGIN_SETTIMESPEED: u16 = 0x0042;

pub const MONSTER_MOVE: u16 = 0x00DD;

pub const MOVE_START_FORWARD: u16 = 0x00B5;

pub const MOVE_STOP: u16 = 0x00B7;

pub const MOVE_HEARTBEAT: u16 = 0x00EE;

pub const NAME_QUERY_RESPONSE: u16 = 0x0051;

pub const CREATURE_QUERY_RESPONSE: u16 = 0x0061;

pub const GAMEOBJECT_QUERY_RESPONSE: u16 = 0x005F;

pub const ITEM_QUERY_SINGLE_RESPONSE: u16 = 0x0058;

pub const MESSAGECHAT: u16 = 0x0096;

pub const INVENTORY_CHANGE_FAILURE: u16 = 0x0112;

pub const INITIAL_SPELLS: u16 = 0x012A;

pub const BIND_POINT_UPDATE: u16 = 0x0155;

pub const CAST_FAILED: u16 = 0x0130;

pub const SPELL_START: u16 = 0x0131;

pub const SPELL_GO: u16 = 0x0132;

pub const SPELL_COOLDOWN: u16 = 0x0134;

pub const AURA_UPDATE_ALL: u16 = 0x0495;

pub const AURA_UPDATE: u16 = 0x0496;

pub const ATTACK_START: u16 = 0x0143;

pub const ATTACK_STOP: u16 = 0x0144;

pub const ATTACKER_STATE_UPDATE: u16 = 0x014A;

pub const ATTACK_SWING_REFUSED_A: u16 = 0x0145;

pub const ATTACK_SWING_REFUSED_B: u16 = 0x0146;

pub const POWER_UPDATE: u16 = 0x0480;

pub const UPDATE_COMBO_POINTS: u16 = 0x039D;

pub const SPELL_NON_MELEE_DAMAGE_LOG: u16 = 0x0250;

pub const THREAT_UPDATE: u16 = 0x0483;

pub const GM_MESSAGECHAT: u16 = 0x03B3;

pub const MOVE_TELEPORT_ACK: u16 = 0x00C7;

pub const CORPSE_QUERY: u16 = 0x0216;

pub const DEATH_RELEASE_LOC: u16 = 0x0378;

pub const CORPSE_RECLAIM_DELAY: u16 = 0x0269;

pub const SPIRIT_HEALER_CONFIRM: u16 = 0x0222;

pub const THREAT_REMOVE: u16 = 0x0484;

pub const CANCEL_COMBAT: u16 = 0x014E;

pub const DURABILITY_DAMAGE_DEATH: u16 = 0x02BD;

pub const GROUP_INVITE: u16 = 0x006F;

pub const GROUP_LIST: u16 = 0x007D;

pub const PARTY_COMMAND_RESULT: u16 = 0x007F;

pub const PARTY_MEMBER_STATS: u16 = 0x007E;

pub const PARTY_MEMBER_STATS_FULL: u16 = 0x02F2;

pub const GROUP_UNINVITE: u16 = 0x0077;

pub const GROUP_DESTROYED: u16 = 0x007C;

pub const GROUP_CANCEL: u16 = 0x0071;

pub const GROUP_DECLINE: u16 = 0x0074;

pub const GROUP_SET_LEADER: u16 = 0x0079;

} // verus!
