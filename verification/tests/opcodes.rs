use world::opcode::{describe, is_relayed_movement, server, ClientOpcode};

#[test]
fn the_handshake_opcodes_are_the_documented_values() {
    assert_eq!(ClientOpcode::AuthSession.code(), 0x01ED);
    assert_eq!(server::AUTH_CHALLENGE, 0x01EC);
    assert_eq!(server::AUTH_RESPONSE, 0x01EE);
    assert_eq!(ClientOpcode::CharEnum.code(), 0x0037);
    assert_eq!(server::CHAR_ENUM, 0x003B);
}

#[test]
fn unknown_opcodes_describe_as_numbers() {
    assert_eq!(describe(server::CHAR_ENUM), "SMSG_CHAR_ENUM");
    assert_eq!(describe(0x1234), "opcode 0x1234");
}

#[test]
fn relayed_movement_keeps_its_number() {
    assert!(is_relayed_movement(server::MOVE_START_FORWARD));
    assert!(is_relayed_movement(server::MOVE_STOP));
    assert!(is_relayed_movement(server::MOVE_HEARTBEAT));
    assert!(!is_relayed_movement(server::MONSTER_MOVE));
    assert_eq!(describe(0x00DA), "MSG_MOVE_* relayed (0x00da)");
    assert_eq!(describe(server::MOVE_STOP), "MSG_MOVE_STOP");
}
