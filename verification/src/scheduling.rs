//! The methods by which a validator schedules transactions, and the names
//! under which a command line selects them.

use vstd::prelude::*;

verus! {

/// How transactions are scheduled when the entries of the ledger are
/// verified.
#[derive(Clone, Copy, Debug, PartialEq, Eq, Structural)]
pub enum BlockVerificationMethod {
    BlockstoreProcessor,
    UnifiedScheduler,
}

impl BlockVerificationMethod {
    /// The names of the methods, in the order in which they are declared.
    pub fn cli_names() -> (names: &'static [&'static str])
        ensures
            names@.len() == 2,
            names@[0]@ == BlockVerificationMethod::BlockstoreProcessor.name_spec(),
            names@[1]@ == BlockVerificationMethod::UnifiedScheduler.name_spec(),
    {
        let names: &'static [&'static str; 2] = &["blockstore-processor", "unified-scheduler"];
        names.as_slice()
    }

    pub fn cli_message() -> (message: &'static str)
        ensures
            message@ == "Switch transaction scheduling method for verifying ledger entries"@,
    {
        "Switch transaction scheduling method for verifying ledger entries"
    }

    pub open spec fn name_spec(self) -> Seq<char> {
        match self {
            BlockVerificationMethod::BlockstoreProcessor => "blockstore-processor"@,
            BlockVerificationMethod::UnifiedScheduler => "unified-scheduler"@,
        }
    }

    /// The name of the method.
    pub fn name(&self) -> (name: &'static str)
        ensures
            name@ == self.name_spec(),
    {
        match self {
            BlockVerificationMethod::BlockstoreProcessor => "blockstore-processor",
            BlockVerificationMethod::UnifiedScheduler => "unified-scheduler",
        }
    }
}

impl BlockVerificationMethod {
    /// The method that a name selects, if it is the name of one.
    pub fn from_name(name: &str) -> (selected: Option<Self>)
        ensures
            match selected {
                Some(found) => found.name_spec() == name@,
                None => name@ != BlockVerificationMethod::BlockstoreProcessor.name_spec() && name@
                    != BlockVerificationMethod::UnifiedScheduler.name_spec(),
            },
    {
        let name: String = name.to_owned();
        if name == "blockstore-processor".to_owned() {
            Some(BlockVerificationMethod::BlockstoreProcessor)
        } else if name == "unified-scheduler".to_owned() {
            Some(BlockVerificationMethod::UnifiedScheduler)
        } else {
            None
        }
    }
}

impl Default for BlockVerificationMethod {
    fn default() -> (method: Self)
        ensures
            method == BlockVerificationMethod::UnifiedScheduler,
    {
        BlockVerificationMethod::UnifiedScheduler
    }
}

/// How transactions are scheduled when the entries of the ledger are
/// produced.
#[derive(Clone, Copy, Debug, PartialEq, Eq, Structural)]
pub enum BlockProductionMethod {
    CentralScheduler,
    CentralSchedulerGreedy,
}

impl BlockProductionMethod {
    /// The names of the methods, in the order in which they are declared.
    pub fn cli_names() -> (names: &'static [&'static str])
        ensures
            names@.len() == 2,
            names@[0]@ == BlockProductionMethod::CentralScheduler.name_spec(),
            names@[1]@ == BlockProductionMethod::CentralSchedulerGreedy.name_spec(),
    {
        let names: &'static [&'static str; 2] = &["central-scheduler", "central-scheduler-greedy"];
        names.as_slice()
    }

    pub fn cli_message() -> (message: &'static str)
        ensures
            message@ == "Switch transaction scheduling method for producing ledger entries"@,
    {
        "Switch transaction scheduling method for producing ledger entries"
    }

    pub open spec fn name_spec(self) -> Seq<char> {
        match self {
            BlockProductionMethod::CentralScheduler => "central-scheduler"@,
            BlockProductionMethod::CentralSchedulerGreedy => "central-scheduler-greedy"@,
        }
    }

    /// The name of the method.
    pub fn name(&self) -> (name: &'static str)
        ensures
            name@ == self.name_spec(),
    {
        match self {
            BlockProductionMethod::CentralScheduler => "central-scheduler",
            BlockProductionMethod::CentralSchedulerGreedy => "central-scheduler-greedy",
        }
    }
}

impl BlockProductionMethod {
    /// The method that a name selects, if it is the name of one.
    pub fn from_name(name: &str) -> (selected: Option<Self>)
        ensures
            match selected {
                Some(found) => found.name_spec() == name@,
                None => name@ != BlockProductionMethod::CentralScheduler.name_spec() && name@
                    != BlockProductionMethod::CentralSchedulerGreedy.name_spec(),
            },
    {
        let name: String = name.to_owned();
        if name == "central-scheduler".to_owned() {
            Some(BlockProductionMethod::CentralScheduler)
        } else if name == "central-scheduler-greedy".to_owned() {
            Some(BlockProductionMethod::CentralSchedulerGreedy)
        } else {
            None
        }
    }
}

impl Default for BlockProductionMethod {
    fn default() -> (method: Self)
        ensures
            method == BlockProductionMethod::CentralSchedulerGreedy,
    {
        BlockProductionMethod::CentralSchedulerGreedy
    }
}

/// The form in which transactions are held while they are scheduled.
#[derive(Clone, Copy, Debug, PartialEq, Eq, Structural)]
pub enum TransactionStructure {
    Sdk,
    View,
}

impl TransactionStructure {
    /// The names of the structures, in the order in which they are declared.
    pub fn cli_names() -> (names: &'static [&'static str])
        ensures
            names@.len() == 2,
            names@[0]@ == TransactionStructure::Sdk.name_spec(),
            names@[1]@ == TransactionStructure::View.name_spec(),
    {
        let names: &'static [&'static str; 2] = &["sdk", "view"];
        names.as_slice()
    }

    pub fn cli_message() -> (message: &'static str)
        ensures
            message@ == "Switch internal transaction structure/representation"@,
    {
        "Switch internal transaction structure/representation"
    }

    pub open spec fn name_spec(self) -> Seq<char> {
        match self {
            TransactionStructure::Sdk => "sdk"@,
            TransactionStructure::View => "view"@,
        }
    }

    /// The name of the structure.
    pub fn name(&self) -> (name: &'static str)
        ensures
            name@ == self.name_spec(),
    {
        match self {
            TransactionStructure::Sdk => "sdk",
            TransactionStructure::View => "view",
        }
    }
}

impl TransactionStructure {
    /// The structure that a name selects, if it is the name of one.
    pub fn from_name(name: &str) -> (selected: Option<Self>)
        ensures
            match selected {
                Some(found) => found.name_spec() == name@,
                None => name@ != TransactionStructure::Sdk.name_spec() && name@
                    != TransactionStructure::View.name_spec(),
            },
    {
        let name: String = name.to_owned();
        if name == "sdk".to_owned() {
            Some(TransactionStructure::Sdk)
        } else if name == "view".to_owned() {
            Some(TransactionStructure::View)
        } else {
            None
        }
    }
}

impl Default for TransactionStructure {
    fn default() -> (structure: Self)
        ensures
            structure == TransactionStructure::View,
    {
        TransactionStructure::View
    }
}

} // verus!
