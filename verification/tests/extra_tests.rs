use audiocloud::control_surface::{media_source_type, SessionTrackMediaFormat};
use audiocloud::driver::{ChannelValues, DriverSupervisor, InstanceDriverError, NotifyInstanceValues, ParameterMeta};
use audiocloud::ids::AppTaskId;
use audiocloud::routing::{engine_fixed_instance_routing, InstanceRouting, InstanceRoutingEntry};
use audiocloud::security::DomainError;
use audiocloud::streaming::{frame_count, sample_format, EncodedBuf, SampleFormat, StreamPosition};
use audiocloud::task::{init, EngineLoad, Session};
use audiocloud::tasks::TaskReservation;

#[test]
fn driver_routes_to_known_instances() {
    let sup = DriverSupervisor::new(vec!["distopik_dual1084_1".to_string(), "netio_pdu_1".to_string()]);
    assert_eq!(sup.route(&"netio_pdu_1".to_string()), Ok(1));
    assert_eq!(
        sup.route(&"missing".to_string()),
        Err(InstanceDriverError::InstanceNotFound("missing".to_string()))
    );
}

fn values(id: &str, v: Vec<Option<i32>>) -> ChannelValues<i32> {
    ChannelValues { id: id.to_string(), values: v }
}

#[test]
fn parameters_merge_channel_by_channel() {
    let model = vec![
        ParameterMeta { id: "gain".to_string(), channels: 2 },
        ParameterMeta { id: "eq".to_string(), channels: 3 },
    ];
    let mut notify = NotifyInstanceValues::new("inst".to_string());
    notify.extend_parameters(vec![values("gain", vec![Some(1)]), values("unknown", vec![Some(9)])], &model);
    assert_eq!(notify.parameters.len(), 1);
    assert_eq!(notify.parameters[0].values, vec![Some(1), None]);
    notify.extend_parameters(vec![values("gain", vec![None, Some(5), Some(7)]), values("eq", vec![Some(3)])], &model);
    assert_eq!(notify.parameters[0].values, vec![None, Some(5)]);
    assert_eq!(notify.parameters[1].id, "eq");
    assert_eq!(notify.parameters[1].values, vec![Some(3), None, None]);
    assert!(notify.reports.is_empty());
}

#[test]
fn stream_positions_count_samples() {
    let mut pos = StreamPosition::new();
    assert_eq!(pos.process(0, true), None);
    assert_eq!(pos.process(100, false), None);
    assert_eq!(pos.queued_len, 100);
    assert_eq!(pos.process(50, true), Some(0));
    assert_eq!(pos.stream_pos, 150);
    assert_eq!(pos.queued_len, 0);
    assert_eq!(pos.process(10, true), Some(150));
    assert_eq!(pos.finish(), 160);
}

#[test]
fn supported_bit_depths() {
    assert_eq!(sample_format(16), SampleFormat::I16);
    assert_eq!(sample_format(24), SampleFormat::I24);
    assert_eq!(sample_format(32), SampleFormat::I32);
}

#[test]
fn media_source_types() {
    assert_eq!(media_source_type(SessionTrackMediaFormat::Wav), "WAV");
    assert_eq!(media_source_type(SessionTrackMediaFormat::Mp3), "MP3");
    assert_eq!(media_source_type(SessionTrackMediaFormat::Flac), "FLAC");
    assert_eq!(media_source_type(SessionTrackMediaFormat::WavPack), "WAVPACK");
}

#[test]
fn engine_gets_routing_of_reserved_instances() {
    let r = InstanceRouting { send_channel: 0, send_count: 2, return_channel: 0, return_count: 2 };
    let table = vec![
        InstanceRoutingEntry { instance_id: "a".to_string(), routing: r },
        InstanceRoutingEntry { instance_id: "b".to_string(), routing: InstanceRouting { send_channel: 2, ..r } },
        InstanceRoutingEntry { instance_id: "c".to_string(), routing: r },
    ];
    let out = engine_fixed_instance_routing(&table, &vec!["c".to_string(), "b".to_string()]);
    assert_eq!(out.len(), 2);
    assert_eq!(out[0].instance_id, "b");
    assert_eq!(out[0].routing.send_channel, 2);
    assert_eq!(out[1].instance_id, "c");
    assert!(engine_fixed_instance_routing(&table, &vec![]).is_empty());
}

#[test]
fn requests_go_to_active_sessions() {
    let id = AppTaskId::new("app".to_string(), "t".to_string());
    let sessions = vec![Session { id: AppTaskId::new("app".to_string(), "t".to_string()), reservations: TaskReservation { from: 0, to: 10 } }];
    let mut sup = init(sessions, vec![EngineLoad { engine_id: "e".to_string(), num_sessions: 0 }]);
    match sup.active_session(&id) {
        Err(DomainError::TaskNotFound { task_id }) => assert_eq!(task_id.task_id, "t"),
        other => panic!("unexpected {:?}", other),
    }
    sup.become_online(5);
    assert_eq!(sup.active_session(&id).ok(), Some(0));
}

#[test]
fn encoded_buffers_carry_stream_positions() {
    assert_eq!(frame_count(&vec![]), 0);
    assert_eq!(frame_count(&vec![64, 32, 48]), 32);
    let mut pos = StreamPosition::new();
    let mut encoded: Vec<u8> = vec![];
    let mut output: Vec<EncodedBuf> = vec![];
    pos.encode(100, &mut encoded, &mut output);
    assert!(output.is_empty());
    assert_eq!(pos.queued_len, 100);
    encoded.extend_from_slice(&[1, 2, 3]);
    pos.encode(0, &mut encoded, &mut output);
    assert!(output.is_empty());
    pos.encode(50, &mut encoded, &mut output);
    assert_eq!(output.len(), 1);
    assert_eq!(output[0].data, vec![1, 2, 3]);
    assert_eq!(output[0].stream_time, 0);
    assert!(!output[0].is_last);
    assert!(encoded.is_empty());
    assert_eq!(pos.stream_pos, 150);
    assert_eq!(pos.queued_len, 0);
    encoded.push(9);
    pos.finish_stream(&mut encoded, &mut output);
    assert_eq!(output.len(), 2);
    assert_eq!(output[1].data, vec![9]);
    assert_eq!(output[1].stream_time, 150);
    assert!(output[1].is_last);
}
