use audiocloud::routing::{
    instances_updated, reaper_channel, ConnectionChannels, FixedInstanceRouting, InstanceRouting, InstanceRoutingEntry, MixerChannels,
};

fn routing(send_channel: usize, send_count: usize, return_channel: usize, return_count: usize) -> InstanceRouting {
    InstanceRouting { send_channel, send_count, return_channel, return_count }
}

#[test]
fn mono_channels_carry_flag() {
    assert_eq!(reaper_channel(MixerChannels::Mono(3)), 1027);
    assert_eq!(reaper_channel(MixerChannels::Stereo(3)), 3);
    let c = ConnectionChannels { from_channels: MixerChannels::Mono(0), to_channels: MixerChannels::Stereo(6) };
    assert_eq!(c.source_reaper_channel(), 1024);
    assert_eq!(c.dest_reaper_channel(), 6);
}

#[test]
fn channel_pairs_in_twos() {
    let inst = FixedInstanceRouting { instance_id: "eq".to_string(), routing: Some(routing(4, 3, 0, 2)) };
    assert_eq!(inst.reaper_channel_pairs(), vec![(4, 0), (1030, 1026)]);
    let even = FixedInstanceRouting { instance_id: "eq".to_string(), routing: Some(routing(8, 4, 0, 2)) };
    assert_eq!(even.reaper_channel_pairs(), vec![(8, 0), (10, 2)]);
    let none = FixedInstanceRouting { instance_id: "eq".to_string(), routing: None };
    assert_eq!(none.reaper_channel_pairs(), vec![]);
}

#[test]
fn record_input_by_return_count() {
    let mono = FixedInstanceRouting { instance_id: "x".to_string(), routing: Some(routing(0, 1, 5, 1)) };
    assert_eq!(mono.reaper_rec_input(), 5);
    let stereo = FixedInstanceRouting { instance_id: "x".to_string(), routing: Some(routing(0, 2, 5, 2)) };
    assert_eq!(stereo.reaper_rec_input(), 1029);
    let quad = FixedInstanceRouting { instance_id: "x".to_string(), routing: Some(routing(0, 4, 5, 4)) };
    assert_eq!(quad.reaper_rec_input(), 5 | 64);
    let none = FixedInstanceRouting { instance_id: "x".to_string(), routing: None };
    assert_eq!(none.reaper_rec_input(), -1);
}

#[test]
fn counts_and_reainsert() {
    let none = FixedInstanceRouting { instance_id: "x".to_string(), routing: None };
    assert_eq!(none.send_count(), 2);
    assert_eq!(none.return_count(), 2);
    assert!(!none.use_reainsert());
    let small = FixedInstanceRouting { instance_id: "x".to_string(), routing: Some(routing(0, 2, 0, 1)) };
    assert!(small.use_reainsert());
    assert_eq!(small.return_count(), 1);
    let big = FixedInstanceRouting { instance_id: "x".to_string(), routing: Some(routing(0, 4, 0, 2)) };
    assert!(!big.use_reainsert());
    assert_eq!(big.send_count(), 4);
}

#[test]
fn instances_update_changes_routing() {
    let mut inst = FixedInstanceRouting { instance_id: "eq".to_string(), routing: None };
    let table = vec![
        InstanceRoutingEntry { instance_id: "comp".to_string(), routing: routing(0, 2, 0, 2) },
        InstanceRoutingEntry { instance_id: "eq".to_string(), routing: routing(2, 2, 4, 2) },
    ];
    assert!(inst.on_instances_updated(&table));
    assert_eq!(inst.routing, Some(routing(2, 2, 4, 2)));
    assert!(!inst.on_instances_updated(&table));
    assert!(inst.on_instances_updated(&vec![]));
    assert_eq!(inst.routing, None);
}

#[test]
fn session_instances_take_the_new_table() {
    let mut instances = vec![
        FixedInstanceRouting { instance_id: "a".to_string(), routing: Some(routing(1, 2, 3, 2)) },
        FixedInstanceRouting { instance_id: "b".to_string(), routing: None },
        FixedInstanceRouting { instance_id: "c".to_string(), routing: None },
    ];
    let table = vec![
        InstanceRoutingEntry { instance_id: "a".to_string(), routing: routing(1, 2, 3, 2) },
        InstanceRoutingEntry { instance_id: "b".to_string(), routing: routing(5, 2, 5, 2) },
    ];
    let changed = instances_updated(&mut instances, &table);
    assert_eq!(changed, vec!["b".to_string()]);
    assert_eq!(instances[1].routing, Some(routing(5, 2, 5, 2)));
    assert_eq!(instances[2].routing, None);
    assert!(instances_updated(&mut instances, &table).is_empty());
}
