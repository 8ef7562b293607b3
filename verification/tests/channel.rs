use swiftlight_compiler::middleend::concurrent::channel::{
    channel_traits_from_name, ChannelKind, ChannelMode, RuntimeChannel, TypeLevelComputationEngine,
};

#[test]
fn messages_come_out_in_order() {
    let mut ch: RuntimeChannel<u32> = RuntimeChannel::new(1, None);
    assert!(ch.send(1).is_ok());
    assert!(ch.send(2).is_ok());
    assert!(ch.send(3).is_ok());
    assert_eq!(ch.len(), 3);
    assert_eq!(ch.receive(), Ok(Some(1)));
    assert_eq!(ch.receive(), Ok(Some(2)));
    assert_eq!(ch.receive(), Ok(Some(3)));
    assert!(ch.is_empty());
}

#[test]
fn empty_open_channel_is_an_error() {
    let mut ch: RuntimeChannel<u32> = RuntimeChannel::new(2, None);
    assert_eq!(ch.receive(), Err("チャネルバッファが空です".to_string()));
}

#[test]
fn bounded_channel_fills_up() {
    let mut ch: RuntimeChannel<u32> = RuntimeChannel::new(3, Some(2));
    assert!(ch.send(10).is_ok());
    assert!(!ch.is_full());
    assert!(ch.send(20).is_ok());
    assert!(ch.is_full());
    assert_eq!(ch.send(30), Err("チャネルバッファが満杯です".to_string()));
    assert_eq!(ch.len(), 2);
    assert_eq!(ch.receive(), Ok(Some(10)));
    assert!(ch.send(30).is_ok());
}

#[test]
fn closed_channel_rejects_sends_and_drains() {
    let mut ch: RuntimeChannel<u32> = RuntimeChannel::new(4, None);
    assert!(ch.send(7).is_ok());
    ch.close();
    assert!(ch.is_closed());
    assert_eq!(ch.send(8), Err("チャネルは閉じられています".to_string()));
    assert_eq!(ch.receive(), Ok(Some(7)));
    assert_eq!(ch.receive(), Ok(None));
}

#[test]
fn removing_last_sender_closes() {
    let mut ch: RuntimeChannel<u32> = RuntimeChannel::new(5, None);
    ch.add_sender();
    ch.remove_sender();
    assert!(!ch.is_closed());
    ch.remove_sender();
    assert!(ch.is_closed());
}

#[test]
fn unbounded_channel_is_never_full() {
    let mut ch: RuntimeChannel<u8> = RuntimeChannel::new(6, None);
    for i in 0..100u8 {
        assert!(ch.send(i).is_ok());
    }
    assert!(!ch.is_full());
}

fn first_or_zero(args: &[usize]) -> Result<usize, String> {
    if args.is_empty() {
        Err("no arguments".to_string())
    } else {
        Ok(args[0])
    }
}

fn always_seven(_args: &[usize]) -> Result<usize, String> {
    Ok(7)
}

#[test]
fn registered_type_functions_are_evaluated() {
    let mut engine: TypeLevelComputationEngine<fn(&[usize]) -> Result<usize, String>> =
        TypeLevelComputationEngine::new();
    assert_eq!(
        engine.evaluate("first", &[3, 4]),
        Err("未定義の型レベル関数: first".to_string())
    );
    engine.register_function("first", first_or_zero);
    assert_eq!(engine.evaluate("first", &[3, 4]), Ok(3));
    assert_eq!(engine.evaluate("first", &[]), Err("no arguments".to_string()));
    engine.register_function("first", always_seven);
    assert_eq!(engine.evaluate("first", &[3, 4]), Ok(7));
}

#[test]
fn channel_names_give_kind_mode_and_buffer() {
    assert_eq!(
        channel_traits_from_name("MpscSyncChannel", 1),
        (ChannelKind::MPSC, ChannelMode::Synchronous, Some(0))
    );
    assert_eq!(
        channel_traits_from_name("Channel", 1),
        (ChannelKind::Unidirectional, ChannelMode::Asynchronous, Some(16))
    );
    assert_eq!(
        channel_traits_from_name("MpmcAsync", 2),
        (ChannelKind::MPMC, ChannelMode::Asynchronous, Some(32))
    );
    assert_eq!(
        channel_traits_from_name("BroadcastUnbounded", 1),
        (ChannelKind::Broadcast, ChannelMode::Unbounded, None)
    );
    assert_eq!(
        channel_traits_from_name("PriorityBatch", 1),
        (ChannelKind::Priority, ChannelMode::Batch, Some(16))
    );
}
