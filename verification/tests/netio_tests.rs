use audiocloud::netio::{handle_response, Netio4cMocked, OutletReading, PowerAction, PowerState};
use trim_margin::MarginTrimmable;

#[test]
fn serialize_request() {}

#[test]
fn outlet_readings_fill_reports() {
    let outputs = vec![
        OutletReading { id: 2, current: 1500, state: PowerState::On },
        OutletReading { id: 4, current: 20, state: PowerState::Off },
    ];
    let reports = handle_response(&outputs);
    assert_eq!(reports.power, vec![false, true, false, false]);
    assert_eq!(reports.current_milliamps, vec![0, 1500, 0, 20]);
}

#[test]
fn later_reading_wins() {
    let outputs = vec![
        OutletReading { id: 1, current: 5, state: PowerState::On },
        OutletReading { id: 1, current: 7, state: PowerState::Off },
    ];
    let reports = handle_response(&outputs);
    assert_eq!(reports.power, vec![false, false, false, false]);
    assert_eq!(reports.current_milliamps, vec![7, 0, 0, 0]);
}

#[test]
fn power_codes_round_trip() {
    let actions = [
        PowerAction::Off,
        PowerAction::On,
        PowerAction::ShortOff,
        PowerAction::ShortOn,
        PowerAction::Toggle,
        PowerAction::NoChange,
        PowerAction::Ignore,
    ];
    for (n, a) in actions.iter().enumerate() {
        assert_eq!(a.code(), n as u32);
        assert_eq!(PowerAction::from_code(a.code()), Some(*a));
    }
    assert_eq!(PowerAction::from_code(7), None);
    assert_eq!(PowerState::On.code(), 1);
    assert_eq!(PowerState::from_code(0), Some(PowerState::Off));
    assert_eq!(PowerState::from_code(2), None);
}

#[test]
fn mocked_pdu_keeps_power() {
    let mut pdu = Netio4cMocked::new();
    assert_eq!(pdu.poll(), vec![false; 4]);
    pdu.set_power_channel(2, true);
    assert_eq!(pdu.poll(), vec![false, false, true, false]);
    pdu.set_power_channel(2, false);
    assert_eq!(pdu.poll(), vec![false; 4]);
}

fn reading_of(value: &serde_json::Value) -> OutletReading {
    let state = PowerState::from_code(value["State"].as_u64().unwrap() as u32).unwrap();
    OutletReading { id: value["ID"].as_u64().unwrap() as u32, current: value["Current"].as_u64().unwrap() as u32, state }
}

#[test]
fn deserialize_captured_response() {
    let raw_json = r#"|{
                      |	"Agent":	{
                      |		"Model":	"PowerPDU 4C",
                      |		"Version":	"3.4.2",
                      |		"JSONVer":	"2.1",
                      |		"DeviceName":	"rack1-up-right",
                      |		"VendorID":	0,
                      |		"OemID":	0,
                      |		"SerialNumber":	"24:A4:2C:39:3F:05",
                      |		"Uptime":	4521231,
                      |		"Time":	"2022-10-11T15:11:46+01:00",
                      |		"NumOutputs":	4
                      |	},
                      |	"GlobalMeasure":	{
                      |		"Voltage":	222.4,
                      |		"Frequency":	50.0,
                      |		"TotalCurrent":	0,
                      |		"OverallPowerFactor":	0.00,
                      |		"TotalLoad":	0,
                      |		"TotalEnergy":	233220,
                      |		"EnergyStart":	"1970-01-01T01:00:00+01:00"
                      |	},
                      |	"Outputs":	[{
                      |			"ID":	1,
                      |			"Name":	"output_1",
                      |			"State":	1,
                      |			"Action":	6,
                      |			"Delay":	5000,
                      |			"Current":	0,
                      |			"PowerFactor":	0.00,
                      |			"Load":	0,
                      |			"Energy":	233203
                      |		}, {
                      |			"ID":	2,
                      |			"Name":	"mac_mini",
                      |			"State":	1,
                      |			"Action":	6,
                      |			"Delay":	5000,
                      |			"Current":	0,
                      |			"PowerFactor":	0.00,
                      |			"Load":	0,
                      |			"Energy":	0
                      |		}, {
                      |			"ID":	3,
                      |			"Name":	"output_3",
                      |			"State":	1,
                      |			"Action":	6,
                      |			"Delay":	5000,
                      |			"Current":	0,
                      |			"PowerFactor":	0.00,
                      |			"Load":	0,
                      |			"Energy":	8
                      |		}, {
                      |			"ID":	4,
                      |			"Name":	"output_4",
                      |			"State":	1,
                      |			"Action":	6,
                      |			"Delay":	5000,
                      |			"Current":	0,
                      |			"PowerFactor":	0.00,
                      |			"Load":	0,
                      |			"Energy":	8
                      |		}]
                      |}"#
        .trim_margin()
        .expect("Failed to trim margin from captured JSON");

    let response: serde_json::Value = serde_json::from_str(raw_json.as_str()).expect("Captured response should deserialize");
    let outputs: Vec<OutletReading> = response["Outputs"].as_array().unwrap().iter().map(reading_of).collect();
    assert_eq!(outputs.len(), 4);
    let reports = handle_response(&outputs);
    assert_eq!(reports.power, vec![true; 4]);
    assert_eq!(reports.current_milliamps, vec![0; 4]);
}
