//! Orchestration strategies: how a DAG's nodes are run.

pub mod dag_strategy;
pub mod sequential_strategy;
pub mod strategy_trait;

pub use dag_strategy::DAGStrategy;
pub use sequential_strategy::SequentialStrategy;
pub use strategy_trait::{ExecutionResult, StrategyConfig, TaskExecutionResult};

use vstd::prelude::*;
use crate::error::Error;
use crate::text::{lowercase, to_lowercase};

verus! {

/// The kinds of strategy.
#[derive(Debug, Clone, Copy, PartialEq, Eq, Hash, Structural)]
pub enum StrategyType {
    /// Run the DAG layer by layer, in parallel where the edges allow.
    Dag,
    /// Run one node at a time.
    Sequential,
    /// Map then reduce.
    MapReduce,
    /// Agree among several nodes.
    Consensus,
    /// Nested DAGs.
    Hierarchical,
    /// A producer checked by a checker.
    ProducerChecker,
}

impl Default for StrategyType {
    fn default() -> (t: Self)
        ensures
            t == StrategyType::Dag,
    {
        StrategyType::Dag
    }
}

/// The name of each kind, as shown to users.
pub open spec fn kind_name(t: StrategyType) -> Seq<char> {
    match t {
        StrategyType::Dag => "dag"@,
        StrategyType::Sequential => "sequential"@,
        StrategyType::MapReduce => "map_reduce"@,
        StrategyType::Consensus => "consensus"@,
        StrategyType::Hierarchical => "hierarchical"@,
        StrategyType::ProducerChecker => "producer_checker"@,
    }
}

/// The name of each kind as Rust's `Debug` writes it.
pub open spec fn debug_name(t: StrategyType) -> Seq<char> {
    match t {
        StrategyType::Dag => "Dag"@,
        StrategyType::Sequential => "Sequential"@,
        StrategyType::MapReduce => "MapReduce"@,
        StrategyType::Consensus => "Consensus"@,
        StrategyType::Hierarchical => "Hierarchical"@,
        StrategyType::ProducerChecker => "ProducerChecker"@,
    }
}

/// The kind a lowercase name stands for.
pub open spec fn type_of_name(n: Seq<char>) -> Option<StrategyType> {
    if n == "dag"@ {
        Some(StrategyType::Dag)
    } else if n == "sequential"@ {
        Some(StrategyType::Sequential)
    } else if n == "map_reduce"@ || n == "mapreduce"@ {
        Some(StrategyType::MapReduce)
    } else if n == "consensus"@ {
        Some(StrategyType::Consensus)
    } else if n == "hierarchical"@ {
        Some(StrategyType::Hierarchical)
    } else if n == "producer_checker"@ || n == "producerchecker"@ {
        Some(StrategyType::ProducerChecker)
    } else {
        None
    }
}

/// Reading back the name of a kind gives that kind; the only other names read are the
/// spellings `mapreduce` and `producerchecker`, without the underscore. So `parse` of any text
/// whose lower-case form is a kind's name gives that kind.
pub proof fn lemma_names_read_back(t: StrategyType, n: Seq<char>)
    ensures
        type_of_name(kind_name(t)) == Some(t),
        type_of_name(n) == Some(t) ==> n == kind_name(t) || (t == StrategyType::MapReduce && n == "mapreduce"@)
            || (t == StrategyType::ProducerChecker && n == "producerchecker"@),
{
    reveal_strlit("dag");
    reveal_strlit("sequential");
    reveal_strlit("map_reduce");
    reveal_strlit("mapreduce");
    reveal_strlit("consensus");
    reveal_strlit("hierarchical");
    reveal_strlit("producer_checker");
    reveal_strlit("producerchecker");
    let dag = "dag"@;
    let sq = "sequential"@;
    let mr = "map_reduce"@;
    let mr2 = "mapreduce"@;
    let co = "consensus"@;
    let hi = "hierarchical"@;
    let pc = "producer_checker"@;
    // Names of equal length are told apart by these characters.
    assert(sq[0] != mr[0]);
    assert(co[0] != mr2[0]);
    assert(dag.len() != sq.len() && dag.len() != mr.len() && dag.len() != mr2.len() && dag.len() != co.len());
    assert(dag.len() != hi.len() && dag.len() != pc.len());
    assert(sq.len() != mr2.len() && sq.len() != co.len() && sq.len() != hi.len() && sq.len() != pc.len());
    assert(mr.len() != co.len() && mr.len() != hi.len() && mr.len() != pc.len());
    assert(mr2.len() != hi.len() && mr2.len() != pc.len());
    assert(co.len() != hi.len() && co.len() != pc.len() && hi.len() != pc.len());
}

/// The kind a registry name stands for; registries know fewer names, and `seq` besides.
pub open spec fn registry_type_of_name(n: Seq<char>) -> Option<StrategyType> {
    if n == "dag"@ {
        Some(StrategyType::Dag)
    } else if n == "sequential"@ || n == "seq"@ {
        Some(StrategyType::Sequential)
    } else if n == "consensus"@ {
        Some(StrategyType::Consensus)
    } else if n == "mapreduce"@ || n == "map_reduce"@ {
        Some(StrategyType::MapReduce)
    } else {
        None
    }
}

/// A registry reads back the name of each kind it knows (the DAG, sequential, consensus and
/// map-reduce kinds), and reads no name as another kind; it knows the hierarchical and
/// producer-checker kinds by no name.
pub proof fn lemma_registry_names_read_back(t: StrategyType, n: Seq<char>)
    ensures
        t == StrategyType::Dag || t == StrategyType::Sequential || t == StrategyType::Consensus
            || t == StrategyType::MapReduce ==> registry_type_of_name(kind_name(t)) == Some(t),
        registry_type_of_name(n) == Some(t) ==> n == kind_name(t) || (t == StrategyType::Sequential && n == "seq"@)
            || (t == StrategyType::MapReduce && n == "mapreduce"@),
        registry_type_of_name(n) != Some(StrategyType::Hierarchical),
        registry_type_of_name(n) != Some(StrategyType::ProducerChecker),
{
    reveal_strlit("dag");
    reveal_strlit("sequential");
    reveal_strlit("seq");
    reveal_strlit("map_reduce");
    reveal_strlit("mapreduce");
    reveal_strlit("consensus");
    let dag = "dag"@;
    let sq = "sequential"@;
    let s3 = "seq"@;
    let mr = "map_reduce"@;
    let mr2 = "mapreduce"@;
    let co = "consensus"@;
    // Names of equal length are told apart by these characters.
    assert(sq[0] != mr[0]);
    assert(co[0] != mr2[0]);
    assert(dag[0] != s3[0]);
    assert(dag.len() != sq.len() && dag.len() != mr.len() && dag.len() != mr2.len() && dag.len() != co.len());
    assert(s3.len() != sq.len() && s3.len() != mr.len() && s3.len() != mr2.len() && s3.len() != co.len());
    assert(sq.len() != mr2.len() && sq.len() != co.len() && mr.len() != co.len());
}

impl StrategyType {
    /// The kind's name, as shown to users.
    pub fn as_str(&self) -> (s: &'static str)
        ensures
            s@ == kind_name(*self),
    {
        match self {
            StrategyType::Dag => "dag",
            StrategyType::Sequential => "sequential",
            StrategyType::MapReduce => "map_reduce",
            StrategyType::Consensus => "consensus",
            StrategyType::Hierarchical => "hierarchical",
            StrategyType::ProducerChecker => "producer_checker",
        }
    }

    /// The kind's name as Rust's `Debug` writes it.
    pub fn debug_str(&self) -> (s: &'static str)
        ensures
            s@ == debug_name(*self),
    {
        match self {
            StrategyType::Dag => "Dag",
            StrategyType::Sequential => "Sequential",
            StrategyType::MapReduce => "MapReduce",
            StrategyType::Consensus => "Consensus",
            StrategyType::Hierarchical => "Hierarchical",
            StrategyType::ProducerChecker => "ProducerChecker",
        }
    }

    /// Reads a kind from its name, ignoring case; `mapreduce` and `producerchecker` are
    /// accepted too.
    pub fn parse(s: &str) -> (r: Result<StrategyType, Error>)
        ensures
            type_of_name(lowercase(s@)) matches Some(t) ==> r == Ok::<StrategyType, Error>(t),
            type_of_name(lowercase(s@)) is None ==> (r matches Err(Error::Strategy(m)) && m@
                == "Unknown strategy type: "@ + s@),
    {
        let low = to_lowercase(s);
        if low == "dag".to_owned() {
            Ok(StrategyType::Dag)
        } else if low == "sequential".to_owned() {
            Ok(StrategyType::Sequential)
        } else if low == "map_reduce".to_owned() || low == "mapreduce".to_owned() {
            Ok(StrategyType::MapReduce)
        } else if low == "consensus".to_owned() {
            Ok(StrategyType::Consensus)
        } else if low == "hierarchical".to_owned() {
            Ok(StrategyType::Hierarchical)
        } else if low == "producer_checker".to_owned() || low == "producerchecker".to_owned() {
            Ok(StrategyType::ProducerChecker)
        } else {
            let mut m = "Unknown strategy type: ".to_owned();
            m.append(s);
            Err(Error::Strategy(m))
        }
    }
}

impl std::str::FromStr for StrategyType {
    type Err = Error;

    fn from_str(s: &str) -> (r: Result<StrategyType, Error>)
        ensures
            type_of_name(lowercase(s@)) matches Some(t) ==> r == Ok::<StrategyType, Error>(t),
            type_of_name(lowercase(s@)) is None ==> (r matches Err(Error::Strategy(m)) && m@
                == "Unknown strategy type: "@ + s@),
    {
        StrategyType::parse(s)
    }
}

/// Reads a kind from a registry name, ignoring case: `dag`, `sequential` or `seq`,
/// `consensus`, `mapreduce` or `map_reduce`.
pub fn parse_type_name(name: &str) -> (r: Result<StrategyType, Error>)
    ensures
        registry_type_of_name(lowercase(name@)) matches Some(t) ==> r == Ok::<StrategyType, Error>(t),
        registry_type_of_name(lowercase(name@)) is None ==> (r matches Err(Error::Strategy(m)) && m@
            == "Unknown strategy name: '"@ + name@ + "'. Available: dag, sequential"@),
{
    let low = to_lowercase(name);
    if low == "dag".to_owned() {
        Ok(StrategyType::Dag)
    } else if low == "sequential".to_owned() || low == "seq".to_owned() {
        Ok(StrategyType::Sequential)
    } else if low == "consensus".to_owned() {
        Ok(StrategyType::Consensus)
    } else if low == "mapreduce".to_owned() || low == "map_reduce".to_owned() {
        Ok(StrategyType::MapReduce)
    } else {
        let mut m = "Unknown strategy name: '".to_owned();
        m.append(name);
        m.append("'. Available: dag, sequential");
        Err(Error::Strategy(m))
    }
}

/// A strategy the library provides.
pub enum BuiltinStrategy {
    /// The DAG strategy.
    Dag(DAGStrategy),
    /// The sequential strategy.
    Sequential(SequentialStrategy),
}

/// Makes the strategies the library provides.
pub struct StrategyFactory;

impl StrategyFactory {
    /// The strategy of kind `t` with its default settings; only the DAG and sequential kinds
    /// exist.
    pub fn create(t: StrategyType) -> (r: Result<BuiltinStrategy, Error>)
        ensures
            t == StrategyType::Dag ==> (r matches Ok(BuiltinStrategy::Dag(s)) && s.settings().name@ == "default"@
                && s.parallelism() == 10),
            t == StrategyType::Sequential ==> (r matches Ok(BuiltinStrategy::Sequential(s))
                && s.settings().name@ == "sequential"@ && s.settings().max_parallelism == Some(1usize)),
            t != StrategyType::Dag && t != StrategyType::Sequential ==> (r matches Err(Error::Strategy(m))
                && m@ == "Strategy "@ + debug_name(t) + " not yet implemented. Available: Dag, Sequential"@),
    {
        match t {
            StrategyType::Dag => Ok(BuiltinStrategy::Dag(DAGStrategy::default())),
            StrategyType::Sequential => Ok(BuiltinStrategy::Sequential(SequentialStrategy::default())),
            _ => Err(Self::not_implemented(t)),
        }
    }

    /// The strategy of kind `t` with the given settings; only the DAG and sequential kinds
    /// exist.
    pub fn create_with_config(t: StrategyType, config: StrategyConfig) -> (r: Result<BuiltinStrategy, Error>)
        ensures
            t == StrategyType::Dag ==> (r matches Ok(BuiltinStrategy::Dag(s)) && s.settings() == config),
            t == StrategyType::Sequential ==> (r matches Ok(BuiltinStrategy::Sequential(s)) && s.settings()
                == config),
            t != StrategyType::Dag && t != StrategyType::Sequential ==> (r matches Err(Error::Strategy(m))
                && m@ == "Strategy "@ + debug_name(t) + " not yet implemented. Available: Dag, Sequential"@),
    {
        match t {
            StrategyType::Dag => Ok(BuiltinStrategy::Dag(DAGStrategy::new(config))),
            StrategyType::Sequential => Ok(BuiltinStrategy::Sequential(SequentialStrategy::new(config))),
            _ => Err(Self::not_implemented(t)),
        }
    }

    /// The DAG strategy with its default settings.
    pub fn dag_strategy() -> (r: BuiltinStrategy)
        ensures
            r matches BuiltinStrategy::Dag(s) && s.settings().name@ == "default"@ && s.parallelism() == 10,
    {
        BuiltinStrategy::Dag(DAGStrategy::default())
    }

    /// The DAG strategy with the given settings.
    pub fn dag_strategy_with(config: StrategyConfig) -> (r: BuiltinStrategy)
        ensures
            r matches BuiltinStrategy::Dag(s) && s.settings() == config,
    {
        BuiltinStrategy::Dag(DAGStrategy::new(config))
    }

    /// The sequential strategy with its default settings.
    pub fn sequential_strategy() -> (r: BuiltinStrategy)
        ensures
            r matches BuiltinStrategy::Sequential(s) && s.settings().name@ == "sequential"@
                && s.settings().max_parallelism == Some(1usize),
    {
        BuiltinStrategy::Sequential(SequentialStrategy::default())
    }

    /// The sequential strategy with the given settings.
    pub fn sequential_strategy_with(config: StrategyConfig) -> (r: BuiltinStrategy)
        ensures
            r matches BuiltinStrategy::Sequential(s) && s.settings() == config,
    {
        BuiltinStrategy::Sequential(SequentialStrategy::new(config))
    }

    fn not_implemented(t: StrategyType) -> (e: Error)
        ensures
            e matches Error::Strategy(m) && m@ == "Strategy "@ + debug_name(t) + " not yet implemented. Available: Dag, Sequential"@,
    {
        let mut m = "Strategy ".to_owned();
        m.append(t.debug_str());
        m.append(" not yet implemented. Available: Dag, Sequential");
        Error::Strategy(m)
    }
}

} // verus!
