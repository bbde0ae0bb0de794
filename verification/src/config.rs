//! The park's configuration, read from YAML text.

use vstd::prelude::*;
use crate::amount::{parse_amount, spec_amount};
use crate::yaml::{get, load_yaml, spec_get, yaml_documents, YamlValue};

verus! {

/// Why a configuration could not be read.
#[derive(Debug, Clone, Copy, PartialEq, Eq, Structural)]
pub enum ConfigError {
    /// The text is no YAML.
    InvalidYaml,
    /// The text holds no YAML document.
    NoDocument,
    /// `park.games-cost` is no list.
    GamesCostNotList,
    /// Some entry of `park.games-cost` is no float that writes an amount of money in cents.
    GameCostNotAmount,
    /// `park.people` is no integer.
    PeopleNotInteger,
    /// `park.capacity` is no integer.
    CapacityNotInteger,
}

/// The park's configuration: how many people come, how many the park holds at once,
/// and what each game costs, in cents.
#[derive(Debug, PartialEq)]
pub struct ParkConfig {
    people: i64,
    park_capacity: i64,
    number_of_games: usize,
    games_cost: Vec<i64>,
}

/// What a configuration says.
pub struct ParkConfigView {
    pub people: i64,
    pub park_capacity: i64,
    pub games_cost: Seq<i64>,
}

impl View for ParkConfig {
    type V = ParkConfigView;

    closed spec fn view(&self) -> ParkConfigView {
        ParkConfigView {
            people: self.people,
            park_capacity: self.park_capacity,
            games_cost: self.games_cost@,
        }
    }
}

impl ParkConfig {
    /// The number of games is the number of costs.
    pub closed spec fn wf(&self) -> bool {
        self.number_of_games == self.games_cost@.len()
    }

    /// A configuration with the given people, capacity and game costs.
    pub fn new(people: i64, park_capacity: i64, games_cost: Vec<i64>) -> (c: ParkConfig)
        ensures
            c.wf(),
            c@.people == people,
            c@.park_capacity == park_capacity,
            c@.games_cost == games_cost@,
    {
        let number_of_games = games_cost.len();
        ParkConfig { people, park_capacity, number_of_games, games_cost }
    }

    /// How many people come to the park.
    pub fn people(&self) -> (r: i64)
        ensures
            r == self@.people,
    {
        self.people
    }

    /// How many people the park holds at once.
    pub fn park_capacity(&self) -> (r: i64)
        ensures
            r == self@.park_capacity,
    {
        self.park_capacity
    }

    /// How many games the park has.
    pub fn number_of_games(&self) -> (r: usize)
        requires
            self.wf(),
        ensures
            r == self@.games_cost.len(),
    {
        self.number_of_games
    }

    /// What game `game` costs, in cents.
    pub fn game_cost(&self, game: usize) -> (r: i64)
        requires
            game < self@.games_cost.len(),
        ensures
            r == self@.games_cost[game as int],
    {
        self.games_cost[game]
    }
}

/// The value under `park.<key>` of the first document.
pub open spec fn spec_park_field(docs: Seq<YamlValue>, key: Seq<char>) -> Option<YamlValue> {
    if docs.len() == 0 {
        None
    } else {
        match spec_get(docs[0], "park"@) {
            Some(park) => spec_get(park, key),
            None => None,
        }
    }
}

/// The cost, in cents, that a node writes: a float that is an amount of money.
pub open spec fn spec_cost(node: YamlValue) -> Option<i64> {
    match node {
        YamlValue::Real(text) => spec_amount(text@),
        _ => None,
    }
}

/// The costs that a `games-cost` node lists.
pub open spec fn spec_costs(node: Option<YamlValue>) -> Result<Seq<i64>, ConfigError> {
    match node {
        Some(YamlValue::Array(items)) => {
            if forall|i: int| 0 <= i < items@.len() ==> (#[trigger] spec_cost(items@[i])) is Some {
                Ok(Seq::new(items@.len(), |i: int| spec_cost(items@[i])->0))
            } else {
                Err(ConfigError::GameCostNotAmount)
            }
        },
        _ => Err(ConfigError::GamesCostNotList),
    }
}

/// The configuration that YAML documents give: from the first document's `park` mapping,
/// `games-cost` (a list of floats), then `people` and `capacity` (integers); the first of
/// these that is missing or of another kind gives the error.
pub open spec fn spec_config(docs: Seq<YamlValue>) -> Result<ParkConfigView, ConfigError> {
    if docs.len() == 0 {
        Err(ConfigError::NoDocument)
    } else {
        match spec_costs(spec_park_field(docs, "games-cost"@)) {
            Err(e) => Err(e),
            Ok(costs) => match spec_park_field(docs, "people"@) {
                Some(YamlValue::Integer(people)) => match spec_park_field(docs, "capacity"@) {
                    Some(YamlValue::Integer(capacity)) => Ok(
                        ParkConfigView { people, park_capacity: capacity, games_cost: costs },
                    ),
                    _ => Err(ConfigError::CapacityNotInteger),
                },
                _ => Err(ConfigError::PeopleNotInteger),
            },
        }
    }
}

/// Every listed cost is one game: where the first document's `park` mapping lists
/// `games-cost` as floats that all write amounts of money, and gives integer `people` and
/// `capacity`, the configuration read has exactly that many people and that capacity, and
/// one game for each entry of the list, in order, costing that entry's amount in cents;
/// entries of equal cost are kept as games of their own.
pub proof fn lemma_every_listed_cost_is_a_game(
    docs: Seq<YamlValue>,
    items: Vec<YamlValue>,
    people: i64,
    capacity: i64,
)
    requires
        spec_park_field(docs, "games-cost"@) == Some(YamlValue::Array(items)),
        forall|i: int|
            0 <= i < items@.len() ==> (#[trigger] items@[i]) is Real && spec_amount(
                items@[i]->Real_0@,
            ) is Some,
        spec_park_field(docs, "people"@) == Some(YamlValue::Integer(people)),
        spec_park_field(docs, "capacity"@) == Some(YamlValue::Integer(capacity)),
    ensures
        spec_config(docs) is Ok,
        spec_config(docs)->Ok_0.people == people,
        spec_config(docs)->Ok_0.park_capacity == capacity,
        spec_config(docs)->Ok_0.games_cost.len() == items@.len(),
        forall|i: int|
            0 <= i < items@.len() ==> spec_config(docs)->Ok_0.games_cost[i] == spec_amount(
                (#[trigger] items@[i])->Real_0@,
            )->0,
{
    assert forall|i: int| 0 <= i < items@.len() implies (#[trigger] spec_cost(items@[i])) is Some by {
        assert(items@[i] is Real);
    }
    assert forall|i: int| 0 <= i < items@.len() implies spec_config(docs)->Ok_0.games_cost[i]
        == spec_amount((#[trigger] items@[i])->Real_0@)->0 by {
        assert(items@[i] is Real);
        assert(spec_cost(items@[i]) == spec_amount(items@[i]->Real_0@));
    }
}

/// What a result of reading a configuration says.
pub open spec fn config_outcome(r: Result<ParkConfig, ConfigError>) -> Result<
    ParkConfigView,
    ConfigError,
> {
    match r {
        Ok(c) => Ok(c@),
        Err(e) => Err(e),
    }
}

/// The value under `park.<key>` of the first of a non-empty list of documents.
fn park_field<'a>(docs: &'a Vec<YamlValue>, key: &str) -> (r: Option<&'a YamlValue>)
    requires
        docs@.len() > 0,
    ensures
        r matches Some(v) ==> spec_park_field(docs@, key@) == Some(*v),
        r is None ==> spec_park_field(docs@, key@) is None,
{
    match get(&docs[0], "park") {
        Some(park) => get(park, key),
        None => None,
    }
}

/// The costs that a `games-cost` node lists, in cents.
#[verifier::loop_isolation(false)]
fn read_costs(node: Option<&YamlValue>) -> (r: Result<Vec<i64>, ConfigError>)
    ensures
        (match r {
            Ok(v) => Ok(v@),
            Err(e) => Err(e),
        }) == spec_costs(
            match node {
                Some(v) => Some(*v),
                None => None,
            },
        ),
{
    match node {
        Some(YamlValue::Array(items)) => {
            let mut costs: Vec<i64> = Vec::new();
            let mut i: usize = 0;
            while i < items.len()
                invariant
                    i <= items@.len(),
                    costs@.len() == i,
                    forall|k: int| 0 <= k < i ==> spec_cost(#[trigger] items@[k]) == Some(costs@[k]),
                decreases items.len() - i,
            {
                let cost = match &items[i] {
                    YamlValue::Real(text) => parse_amount(text.as_str()),
                    _ => None,
                };
                match cost {
                    Some(c) => {
                        costs.push(c);
                    },
                    None => {
                        assert(spec_cost(items@[i as int]) is None);
                        assert(!(forall|k: int| 0 <= k < items@.len() ==> (#[trigger] spec_cost(items@[k])) is Some));
                        return Err(ConfigError::GameCostNotAmount);
                    },
                }
                i = i + 1;
            }
            assert(costs@ =~= Seq::new(items@.len(), |k: int| spec_cost(items@[k])->0));
            Ok(costs)
        },
        _ => Err(ConfigError::GamesCostNotList),
    }
}

/// Reads the park's configuration out of YAML documents already loaded.
pub fn config_from_documents(docs: &Vec<YamlValue>) -> (r: Result<ParkConfig, ConfigError>)
    ensures
        config_outcome(r) == spec_config(docs@),
        r matches Ok(c) ==> c.wf(),
{
    if docs.len() == 0 {
        return Err(ConfigError::NoDocument);
    }
    let games_cost = match read_costs(park_field(docs, "games-cost")) {
        Ok(costs) => costs,
        Err(e) => {
            return Err(e);
        },
    };
    let people = match park_field(docs, "people") {
        Some(YamlValue::Integer(p)) => *p,
        _ => {
            return Err(ConfigError::PeopleNotInteger);
        },
    };
    let park_capacity = match park_field(docs, "capacity") {
        Some(YamlValue::Integer(c)) => *c,
        _ => {
            return Err(ConfigError::CapacityNotInteger);
        },
    };
    Ok(ParkConfig::new(people, park_capacity, games_cost))
}

/// Reads the park's configuration from YAML text, such as
/// `park: {people: 5, capacity: 10, games-cost: [1.0, 2.0, 3.0]}`.
pub fn read_configuration(text: &str) -> (r: Result<ParkConfig, ConfigError>)
    ensures
        match yaml_documents(text@) {
            None => r == Err::<ParkConfig, ConfigError>(ConfigError::InvalidYaml),
            Some(docs) => config_outcome(r) == spec_config(docs),
        },
        r matches Ok(c) ==> c.wf(),
{
    match load_yaml(text) {
        Ok(docs) => config_from_documents(&docs),
        Err(_) => Err(ConfigError::InvalidYaml),
    }
}

} // verus!
