use asemic::network::{
    noise_payload, TransmitAction, Transmitter, NOISE_MAX_LEN, NOISE_MIN_LEN,
};
use asemic::protocol::{decode_packet, MAX_PACKET_SIZE};
use asemic::state::{
    MessageContent, NoiseLevel, ObfuscationPattern, PeerAddr, SendMessagePayload, SetNoisePayload,
    TransmitCommand,
};

fn peer() -> PeerAddr {
    PeerAddr::V4 { ip: 0x7f00_0001, port: 7070 }
}

fn send_command(key: &str) -> TransmitCommand {
    TransmitCommand::SendMessage {
        target_addr: peer(),
        key: key.to_string(),
        pattern: ObfuscationPattern::Starfall,
        content: MessageContent::Text("hello".to_string()),
    }
}

#[test]
fn noise_levels_map_to_their_periods() {
    assert_eq!(NoiseLevel::Off.period_millis(), None);
    assert_eq!(NoiseLevel::Slow.period_millis(), Some(2000));
    assert_eq!(NoiseLevel::Medium.period_millis(), Some(500));
    assert_eq!(NoiseLevel::Fast.period_millis(), Some(100));
}

#[test]
fn a_new_transmitter_is_silent() {
    let transmitter = Transmitter::new();
    assert_eq!(transmitter.noise_level(), NoiseLevel::Off);
    assert_eq!(transmitter.noise_packet(), None);
}

#[test]
fn set_noise_level_resets_the_timer() {
    let mut transmitter = Transmitter::new();
    for (level, period) in [
        (NoiseLevel::Slow, Some(2000)),
        (NoiseLevel::Medium, Some(500)),
        (NoiseLevel::Fast, Some(100)),
        (NoiseLevel::Off, None),
    ] {
        let action = transmitter.handle_command(TransmitCommand::SetNoiseLevel(level));
        assert_eq!(action, TransmitAction::ResetTimer(period));
        assert_eq!(transmitter.noise_level(), level);
    }
}

#[test]
fn a_tick_without_a_send_context_is_skipped() {
    let mut transmitter = Transmitter::new();
    transmitter.handle_command(TransmitCommand::SetNoiseLevel(NoiseLevel::Fast));
    assert_eq!(transmitter.noise_packet(), None);
}

#[test]
fn a_send_context_without_noise_stays_silent() {
    let mut transmitter = Transmitter::new();
    transmitter.handle_command(send_command("k"));
    assert_eq!(transmitter.noise_packet(), None);
}

#[test]
fn send_message_hands_the_message_on() {
    let mut transmitter = Transmitter::new();
    let action = transmitter.handle_command(send_command("swordfish"));
    assert_eq!(
        action,
        TransmitAction::SendChunks {
            target_addr: peer(),
            key: "swordfish".to_string(),
            pattern: ObfuscationPattern::Starfall,
            content: MessageContent::Text("hello".to_string()),
        }
    );
    assert_eq!(transmitter.noise_level(), NoiseLevel::Off);
}

#[test]
fn noise_goes_to_the_last_target_under_the_last_key() {
    let mut transmitter = Transmitter::new();
    transmitter.handle_command(TransmitCommand::SetNoiseLevel(NoiseLevel::Medium));
    transmitter.handle_command(send_command("first"));
    transmitter.handle_command(TransmitCommand::SendMessage {
        target_addr: PeerAddr::V6 { ip: 1, port: 9, flowinfo: 0, scope_id: 0 },
        key: "second".to_string(),
        pattern: ObfuscationPattern::Sunshine,
        content: MessageContent::Text("x".to_string()),
    });
    for _ in 0..3 {
        let (target, packet) = transmitter.noise_packet().unwrap();
        assert_eq!(target, PeerAddr::V6 { ip: 1, port: 9, flowinfo: 0, scope_id: 0 });
        assert!(packet.len() >= NOISE_MIN_LEN + 40);
        assert!(packet.len() <= MAX_PACKET_SIZE);
        assert!(decode_packet(&packet, b"first").is_err());
        match decode_packet(&packet, b"second") {
            Ok(body) => assert!(serde_json::from_slice::<serde_json::Value>(&body).is_err()),
            Err(_) => {}
        }
    }
}

#[test]
fn switching_noise_off_disables_the_ticks() {
    let mut transmitter = Transmitter::new();
    transmitter.handle_command(send_command("k"));
    transmitter.handle_command(TransmitCommand::SetNoiseLevel(NoiseLevel::Slow));
    assert!(transmitter.noise_packet().is_some());
    transmitter.handle_command(TransmitCommand::SetNoiseLevel(NoiseLevel::Off));
    assert_eq!(transmitter.noise_packet(), None);
}

#[test]
fn noise_payloads_have_fifty_to_one_hundred_ninety_nine_bytes() {
    assert_eq!(NOISE_MIN_LEN, 50);
    assert_eq!(NOISE_MAX_LEN, 200);
    let mut lengths = std::collections::BTreeSet::new();
    for _ in 0..200 {
        let payload = noise_payload();
        assert!(payload.len() >= 50);
        assert!(payload.len() < 200);
        lengths.insert(payload.len());
    }
    assert!(lengths.len() > 1);
}

#[test]
fn noise_payloads_are_not_all_zero() {
    let payload = noise_payload();
    assert!(payload.iter().any(|byte| *byte != 0));
}

#[test]
fn a_send_payload_becomes_a_send_command() {
    let payload = SendMessagePayload {
        target_addr: "localhost:7070".to_string(),
        key: "k".to_string(),
        pattern: ObfuscationPattern::Sunshine,
        content: MessageContent::Text("hi".to_string()),
    };
    assert_eq!(
        payload.into_command(peer()),
        TransmitCommand::SendMessage {
            target_addr: peer(),
            key: "k".to_string(),
            pattern: ObfuscationPattern::Sunshine,
            content: MessageContent::Text("hi".to_string()),
        }
    );
}

#[test]
fn a_noise_payload_becomes_a_noise_command() {
    let payload = SetNoisePayload { level: NoiseLevel::Fast };
    assert_eq!(payload.into_command(), TransmitCommand::SetNoiseLevel(NoiseLevel::Fast));
}
