use std::io::Read;

use itf::bigint::BigInt;
use itf::decode::{
    Key,
    decode_field, record_of, take_tag, unit_variant, variant_index, Dict, QuintOption,
};
use itf::trace::{trace_from_json, trace_from_text, StateMeta, TraceMeta};
use itf::value::Value;
use itf::{json_from_str, trace_from_str, DecodeError, DecodeItfValue, Error, State, Trace};

const CANNIBALS: &str = r##"{
  "#meta": {
    "format": "ITF",
    "format-description": "https://apalache.informal.systems/docs/adr/015adr-trace.html",
    "description": "Created by Apalache"
  },
  "vars": ["bank_of_boat", "who_is_on_bank"],
  "states": [
    {
      "#meta": {"index": 0},
      "bank_of_boat": "E",
      "who_is_on_bank": {"#map": [
        ["E", {"#set": ["c1_OF_PERSON", "c2_OF_PERSON", "m1_OF_PERSON", "m2_OF_PERSON"]}],
        ["W", {"#set": []}]
      ]}
    },
    {
      "#meta": {"index": 1},
      "bank_of_boat": "W",
      "who_is_on_bank": {"#map": [
        ["E", {"#set": ["c2_OF_PERSON", "m2_OF_PERSON"]}],
        ["W", {"#set": ["c1_OF_PERSON", "m1_OF_PERSON"]}]
      ]}
    }
  ]
}"##;

#[derive(Copy, Clone, Debug, PartialEq, Eq)]
enum Bank {
    North,
    West,
    East,
    South,
}

impl Key for Bank {
    fn same_key(&self, other: &Bank) -> bool {
        self == other
    }
}

impl DecodeItfValue for Bank {
    fn decode(value: Value) -> Result<Self, DecodeError> {
        let banks = [Bank::North, Bank::West, Bank::East, Bank::South];
        Ok(banks[unit_variant(value, &["N", "W", "E", "S"])?])
    }
}

#[derive(Copy, Clone, Debug, PartialEq, Eq)]
enum Person {
    Cannibal1,
    Cannibal2,
    Missionary1,
    Missionary2,
}

impl DecodeItfValue for Person {
    fn decode(value: Value) -> Result<Self, DecodeError> {
        let people = [
            Person::Cannibal1,
            Person::Cannibal2,
            Person::Missionary1,
            Person::Missionary2,
        ];
        let names = ["c1_OF_PERSON", "c2_OF_PERSON", "m1_OF_PERSON", "m2_OF_PERSON"];
        Ok(people[unit_variant(value, &names)?])
    }
}

#[derive(Debug)]
struct CannibalState {
    bank_of_boat: Bank,
    who_is_on_bank: Dict<Bank, Vec<Person>>,
}

impl DecodeItfValue for CannibalState {
    fn decode(value: Value) -> Result<Self, DecodeError> {
        let mut rec = record_of(value)?;
        Ok(CannibalState {
            bank_of_boat: decode_field(&mut rec, "bank_of_boat")?,
            who_is_on_bank: decode_field(&mut rec, "who_is_on_bank")?,
        })
    }
}

fn check_cannibals(trace: &Trace<CannibalState>) {
    assert_eq!(trace.states.len(), 2);
    assert_eq!(trace.vars, vec!["bank_of_boat".to_string(), "who_is_on_bank".to_string()]);
    assert_eq!(trace.meta.format, Some("ITF".to_string()));
    assert_eq!(trace.states[1].meta.index, Some(1));
    assert_eq!(trace.states[0].value.bank_of_boat, Bank::East);
    assert_eq!(trace.states[1].value.bank_of_boat, Bank::West);
    let on_banks = &trace.states[1].value.who_is_on_bank;
    assert_eq!(on_banks.len(), 2);
    assert_eq!(on_banks.entries[1].0, Bank::West);
    assert_eq!(on_banks.entries[1].1, vec![Person::Cannibal1, Person::Missionary1]);
}

#[test]
fn from_str() {
    let trace = trace_from_str::<CannibalState>(CANNIBALS).unwrap();
    check_cannibals(&trace);
}

#[test]
fn from_slice() {
    let text = std::str::from_utf8(CANNIBALS.as_bytes()).unwrap();
    let trace = trace_from_str::<CannibalState>(text).unwrap();
    check_cannibals(&trace);
}

#[test]
fn from_reader() {
    let mut reader = CANNIBALS.as_bytes();
    let mut text = String::new();
    reader.read_to_string(&mut text).unwrap();
    let trace = trace_from_str::<CannibalState>(&text).unwrap();
    check_cannibals(&trace);
}

#[test]
fn parse_trace_cannibals() {
    let trace = trace_from_json(json_from_str(CANNIBALS).unwrap()).unwrap();
    let trace = trace.decode::<CannibalState>().unwrap();
    check_cannibals(&trace);
}

#[test]
fn missionaries_and_cannibals_cannibals() {
    let trace = trace_from_text(CANNIBALS).unwrap();
    assert_eq!(trace.states.len(), 2);
    let trace = trace.decode::<CannibalState>().unwrap();
    check_cannibals(&trace);
}

#[test]
fn trace_default() {
    let t: Trace<()> = Trace::default();
    assert_eq!(t.meta, TraceMeta::default());
    assert_eq!(t.params, Vec::<String>::new());
    assert_eq!(t.vars, Vec::<String>::new());
    assert_eq!(t.loop_index, None);
    assert_eq!(t.states, Vec::<State<()>>::new());
    assert_eq!(StateMeta::default(), StateMeta { index: None, other: Vec::new() });
}

const INSUFFICIENT: &str = r##"{
  "#meta": {"format": "ITF", "source": "bank.qnt", "varTypes": {"step": "Int"}, "timestamp": 1690000000},
  "params": [],
  "vars": ["action", "outcome", "balances", "step"],
  "states": [
    {
      "#meta": {"index": 0},
      "action": {"tag": "init", "balances": {"#map": [["alice", {"#map": [["atom", {"#bigint": "100"}]]}]]}},
      "outcome": "",
      "balances": {"#map": [["alice", {"#map": [["atom", {"#bigint": "100"}]]}]]},
      "step": 0
    },
    {
      "#meta": {"index": 1},
      "action": {"tag": "send", "receiver": "bob", "sender": "alice",
                 "coins": [{"amount": {"#bigint": "30"}, "denom": "atom"}]},
      "outcome": "SUCCESS",
      "balances": {"#map": [["alice", {"#map": [["atom", {"#bigint": "70"}]]}],
                            ["bob", {"#map": [["atom", {"#bigint": "30"}]]}]]},
      "step": 1
    },
    {
      "#meta": {"index": 2},
      "action": {"tag": "send", "receiver": "bob", "sender": "alice",
                 "coins": [{"amount": {"#bigint": "1000"}, "denom": "atom"}]},
      "outcome": "INSUFFICIENT_FUNDS",
      "balances": {"#map": [["alice", {"#map": [["atom", {"#bigint": "70"}]]}],
                            ["bob", {"#map": [["atom", {"#bigint": "30"}]]}]]},
      "step": 2
    }
  ]
}"##;

type Balances = Dict<String, Dict<String, BigInt>>;

#[derive(Copy, Clone, Debug, PartialEq, Eq)]
enum Outcome {
    NoOutcome,
    Success,
    DuplicateDenom,
    InsufficientFunds,
}

impl DecodeItfValue for Outcome {
    fn decode(value: Value) -> Result<Self, DecodeError> {
        let outcomes = [
            Outcome::NoOutcome,
            Outcome::Success,
            Outcome::DuplicateDenom,
            Outcome::InsufficientFunds,
        ];
        let names = ["", "SUCCESS", "DUPLICATE_DENOM", "INSUFFICIENT_FUNDS"];
        Ok(outcomes[unit_variant(value, &names)?])
    }
}

#[derive(Debug)]
struct Coin {
    amount: BigInt,
    denom: String,
}

impl DecodeItfValue for Coin {
    fn decode(value: Value) -> Result<Self, DecodeError> {
        let mut rec = record_of(value)?;
        Ok(Coin {
            amount: decode_field(&mut rec, "amount")?,
            denom: decode_field(&mut rec, "denom")?,
        })
    }
}

#[derive(Debug)]
enum Action {
    Init { balances: Balances },
    Send { receiver: String, sender: String, coins: Vec<Coin> },
}

impl DecodeItfValue for Action {
    fn decode(value: Value) -> Result<Self, DecodeError> {
        let mut rec = record_of(value)?;
        let tag = take_tag(&mut rec, "tag")?;
        match variant_index(&tag, &["init", "send"])? {
            0 => Ok(Action::Init { balances: decode_field(&mut rec, "balances")? }),
            _ => Ok(Action::Send {
                receiver: decode_field(&mut rec, "receiver")?,
                sender: decode_field(&mut rec, "sender")?,
                coins: decode_field(&mut rec, "coins")?,
            }),
        }
    }
}

#[derive(Debug)]
struct BankState {
    action: Action,
    outcome: Outcome,
    balances: Balances,
    step: i64,
}

impl DecodeItfValue for BankState {
    fn decode(value: Value) -> Result<Self, DecodeError> {
        let mut rec = record_of(value)?;
        Ok(BankState {
            action: decode_field(&mut rec, "action")?,
            outcome: decode_field(&mut rec, "outcome")?,
            balances: decode_field(&mut rec, "balances")?,
            step: decode_field(&mut rec, "step")?,
        })
    }
}

fn check_insufficient(trace: &Trace<BankState>) {
    assert_eq!(trace.states.len(), 3);
    assert_eq!(trace.meta.timestamp, Some(1690000000));
    assert_eq!(trace.meta.source, Some("bank.qnt".to_string()));
    assert_eq!(trace.meta.var_types, vec![("step".to_string(), "Int".to_string())]);
    assert_eq!(trace.states[2].value.outcome, Outcome::InsufficientFunds);
    assert_eq!(trace.states[1].value.step, 1);
    match &trace.states[1].value.action {
        Action::Send { receiver, sender, coins } => {
            assert_eq!(receiver, "bob");
            assert_eq!(sender, "alice");
            assert_eq!(coins[0].amount, BigInt::new(30));
            assert_eq!(coins[0].denom, "atom");
        }
        Action::Init { .. } => panic!("expected a send action"),
    }
    match &trace.states[0].value.action {
        Action::Init { balances } => assert_eq!(balances.entries[0].1.entries[0].1, BigInt::new(100)),
        Action::Send { .. } => panic!("expected an init action"),
    }
    let bob = &trace.states[1].value.balances.entries[1];
    assert_eq!(bob.0, "bob");
    assert_eq!(bob.1.entries[0].1, BigInt::new(30));
}

#[test]
fn insufficent_success_9() {
    let trace = trace_from_str::<BankState>(INSUFFICIENT).unwrap();
    check_insufficient(&trace);
}

#[test]
fn insufficient_success_deserialize() {
    let trace = trace_from_str::<BankState>(INSUFFICIENT).unwrap();
    check_insufficient(&trace);
    let raw = trace_from_str::<Value>(INSUFFICIENT).unwrap();
    assert_eq!(raw.states.len(), 3);
}

const CONSENSUS: &str = r##"{
  "#meta": {"format": "ITF"},
  "vars": ["system", "_Event", "_Result"],
  "states": [
    {
      "#meta": {"index": 0},
      "system": {"#map": [["Josef", {"height": 1, "round": -1, "step": "newRound"}]]},
      "_Event": {"name": "Initial", "height": -1, "round": -1, "value": ""},
      "_Result": {"name": "", "value": ""}
    },
    {
      "#meta": {"index": 1},
      "system": {"#map": [["Josef", {"height": 1, "round": 0, "step": "propose"}]]},
      "_Event": {"name": "NewRound", "height": 1, "round": 0, "value": ""},
      "_Result": {"name": "timeout", "value": "timeoutPropose"}
    }
  ]
}"##;

#[derive(Debug, PartialEq, Eq)]
struct ConsensusState {
    height: i64,
    round: i64,
    step: String,
}

impl DecodeItfValue for ConsensusState {
    fn decode(value: Value) -> Result<Self, DecodeError> {
        let mut rec = record_of(value)?;
        Ok(ConsensusState {
            height: decode_field(&mut rec, "height")?,
            round: decode_field(&mut rec, "round")?,
            step: decode_field(&mut rec, "step")?,
        })
    }
}

#[derive(Debug, PartialEq, Eq)]
enum Event {
    Initial,
    NewRound { height: i64, round: i64 },
}

impl DecodeItfValue for Event {
    fn decode(value: Value) -> Result<Self, DecodeError> {
        let mut rec = record_of(value)?;
        let name = take_tag(&mut rec, "name")?;
        match variant_index(&name, &["Initial", "NewRound"])? {
            0 => Ok(Event::Initial),
            _ => Ok(Event::NewRound {
                height: decode_field(&mut rec, "height")?,
                round: decode_field(&mut rec, "round")?,
            }),
        }
    }
}

#[derive(Debug)]
struct DecideState {
    system: Dict<String, ConsensusState>,
    event: Event,
    result: Dict<String, String>,
}

impl DecodeItfValue for DecideState {
    fn decode(value: Value) -> Result<Self, DecodeError> {
        let mut rec = record_of(value)?;
        Ok(DecideState {
            system: decode_field(&mut rec, "system")?,
            event: decode_field(&mut rec, "_Event")?,
            result: decode_field(&mut rec, "_Result")?,
        })
    }
}

#[test]
fn decide_non_proposer_deserialize() {
    let trace = trace_from_str::<DecideState>(CONSENSUS).unwrap();
    assert_eq!(trace.states[0].value.event, Event::Initial);
    assert_eq!(trace.states[1].value.event, Event::NewRound { height: 1, round: 0 });
    assert_eq!(trace.states[1].value.system.entries[0].1.step, "propose");
    assert_eq!(trace.states[1].value.result.entries[1].1, "timeoutPropose");
}

const SUM_TYPES: &str = r##"{
  "#meta": {"format": "ITF", "source": "SumTypes.qnt"},
  "vars": ["value"],
  "states": [
    {"#meta": {"index": 0}, "value": {"tag": "None", "value": {}}},
    {"#meta": {"index": 1}, "value": {"tag": "Some", "value": {"#bigint": "40"}}},
    {"#meta": {"index": 2}, "value": {"tag": "Some", "value": {"#bigint": "41"}}}
  ]
}"##;

#[derive(Debug, PartialEq, Eq)]
struct SumState {
    value: QuintOption<BigInt>,
}

impl DecodeItfValue for SumState {
    fn decode(value: Value) -> Result<Self, DecodeError> {
        let mut rec = record_of(value)?;
        Ok(SumState { value: decode_field(&mut rec, "value")? })
    }
}

#[test]
fn parse_trace() {
    let trace = trace_from_str::<SumState>(SUM_TYPES).unwrap();
    assert_eq!(trace.states[0].value.value, QuintOption::Absent);
    assert_eq!(trace.states[1].value.value, QuintOption::Present(BigInt::new(40)));
    assert_eq!(trace.states[2].value.value, QuintOption::Present(BigInt::new(41)));
}

#[test]
fn failing_state_reports_its_step() {
    let doc = r##"{"#meta": {}, "states": [
        {"value": {"tag": "None", "value": {}}},
        {"value": {"tag": "Some", "value": {"#bigint": "1"}}},
        {"value": {"tag": "Sum", "value": 1}}
    ]}"##;
    let r = trace_from_str::<SumState>(doc);
    assert_eq!(
        r.unwrap_err(),
        Error::Decode { step: 2, error: DecodeError::UnknownVariant("Sum".to_string()) }
    );
}

#[test]
fn malformed_documents() {
    assert!(matches!(trace_from_str::<Value>("{"), Err(Error::Json(_))));
    assert_eq!(
        trace_from_str::<Value>(r##"{"#meta": {}}"##).unwrap_err(),
        Error::Trace("states".to_string())
    );
    assert_eq!(
        trace_from_str::<Value>(r#"{"states": []}"#).unwrap_err(),
        Error::Trace("#meta".to_string())
    );
    let with_loop = trace_from_str::<Value>(r##"{"#meta": {}, "loop": 3, "params": ["N"], "states": []}"##)
        .unwrap();
    assert_eq!(with_loop.loop_index, Some(3));
    assert_eq!(with_loop.params, vec!["N".to_string()]);
}
