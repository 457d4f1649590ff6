//! Transactions and savepoints of the SQL engine, as the statements that
//! the engine is to run for them.

use vstd::prelude::*;
use vstd::string::StringExecFns;

verus! {

/// How a transaction takes its locks.
#[derive(Clone, Copy, Debug, PartialEq, Eq, Structural)]
pub enum TransactionBehavior {
    /// No lock until the database is first used.
    Deferred,
    /// The write lock at once.
    Immediate,
    /// The write lock at once, and no reader beside it.
    Exclusive,
}

/// What becomes of a transaction or savepoint that is finished without
/// having been committed or rolled back.
#[derive(Clone, Copy, Debug, PartialEq, Eq, Structural)]
pub enum DropBehavior {
    /// It is rolled back.
    Rollback,
    /// It is committed; if that fails, it is rolled back.
    Commit,
    /// It is left open.
    Ignore,
    /// It must not happen.
    Panic,
}

/// What the engine is to run when a transaction or savepoint is finished.
#[derive(Debug)]
pub enum Finish {
    /// Nothing.
    Nothing,
    /// The statement.
    Run(String),
    /// The first statement, and the second if the first fails.
    RunOrElse(String, String),
}

/// The digit `d` as a character.
pub open spec fn digit_char(d: nat) -> char {
    if d == 0 {
        '0'
    } else if d == 1 {
        '1'
    } else if d == 2 {
        '2'
    } else if d == 3 {
        '3'
    } else if d == 4 {
        '4'
    } else if d == 5 {
        '5'
    } else if d == 6 {
        '6'
    } else if d == 7 {
        '7'
    } else if d == 8 {
        '8'
    } else {
        '9'
    }
}

/// The decimal digits of `n`, without leading zeros.
pub open spec fn decimal(n: nat) -> Seq<char>
    decreases n,
{
    if n < 10 {
        seq![digit_char(n)]
    } else {
        decimal(n / 10).push(digit_char(n % 10))
    }
}

fn digit_str(d: u32) -> (s: &'static str)
    requires
        d < 10,
    ensures
        s@ == seq![digit_char(d as nat)],
{
    proof {
        reveal_strlit("0");
        reveal_strlit("1");
        reveal_strlit("2");
        reveal_strlit("3");
        reveal_strlit("4");
        reveal_strlit("5");
        reveal_strlit("6");
        reveal_strlit("7");
        reveal_strlit("8");
        reveal_strlit("9");
    }
    let s = match d {
        0 => "0",
        1 => "1",
        2 => "2",
        3 => "3",
        4 => "4",
        5 => "5",
        6 => "6",
        7 => "7",
        8 => "8",
        _ => "9",
    };
    assert(s@ =~= seq![digit_char(d as nat)]);
    s
}

pub(crate) fn append_decimal(s: &mut String, n: u32)
    ensures
        final(s)@ == old(s)@ + decimal(n as nat),
    decreases n,
{
    if n >= 10 {
        append_decimal(s, n / 10);
    }
    s.append(digit_str(n % 10));
    assert(final(s)@ =~= old(s)@ + decimal(n as nat));
}

/// The name of the unnamed savepoint at the given depth.
pub open spec fn spec_savepoint_name(depth: u32) -> Seq<char> {
    "_rusqlite_sp_"@ + decimal(depth as nat)
}

fn savepoint_name(depth: u32) -> (name: String)
    ensures
        name@ == spec_savepoint_name(depth),
{
    let mut name = String::from_str("_rusqlite_sp_");
    append_decimal(&mut name, depth);
    name
}

/// A transaction that was begun.
#[derive(Debug)]
pub struct Transaction {
    drop_behavior: DropBehavior,
}

impl Transaction {
    /// What becomes of the transaction when it is finished.
    pub closed spec fn behavior(&self) -> DropBehavior {
        self.drop_behavior
    }

    /// The statement that begins a transaction.
    pub open spec fn begin_sql(behavior: TransactionBehavior) -> Seq<char> {
        match behavior {
            TransactionBehavior::Deferred => "BEGIN DEFERRED"@,
            TransactionBehavior::Immediate => "BEGIN IMMEDIATE"@,
            TransactionBehavior::Exclusive => "BEGIN EXCLUSIVE"@,
        }
    }

    /// A transaction, and the statement that begins it. A transaction
    /// that was not committed is rolled back when it is finished.
    pub fn new(behavior: TransactionBehavior) -> (r: (Transaction, String))
        ensures
            r.0.behavior() == DropBehavior::Rollback,
            r.1@ == Self::begin_sql(behavior),
    {
        Self::new_unchecked(behavior)
    }

    /// As `new`, for a connection that is shared.
    pub fn new_unchecked(behavior: TransactionBehavior) -> (r: (Transaction, String))
        ensures
            r.0.behavior() == DropBehavior::Rollback,
            r.1@ == Self::begin_sql(behavior),
    {
        let query = match behavior {
            TransactionBehavior::Deferred => "BEGIN DEFERRED",
            TransactionBehavior::Immediate => "BEGIN IMMEDIATE",
            TransactionBehavior::Exclusive => "BEGIN EXCLUSIVE",
        };
        (Transaction { drop_behavior: DropBehavior::Rollback }, String::from_str(query))
    }

    /// A savepoint inside the transaction, and the statement that sets it.
    pub fn savepoint(&mut self) -> (r: (Savepoint, String))
        ensures
            *final(self) == *old(self),
            r.0.name() == spec_savepoint_name(1),
            r.0.depth() == 1,
            r.0.behavior() == DropBehavior::Rollback,
            !r.0.committed(),
            r.1@ == "SAVEPOINT "@ + spec_savepoint_name(1),
    {
        Savepoint::with_depth(1)
    }

    /// A savepoint of the given name inside the transaction, and the
    /// statement that sets it.
    pub fn savepoint_with_name(&mut self, name: String) -> (r: (Savepoint, String))
        ensures
            *final(self) == *old(self),
            r.0.name() == name@,
            r.0.depth() == 1,
            r.0.behavior() == DropBehavior::Rollback,
            !r.0.committed(),
            r.1@ == "SAVEPOINT "@ + name@,
    {
        Savepoint::with_depth_and_name(1, name)
    }

    pub fn drop_behavior(&self) -> (b: DropBehavior)
        ensures
            b == self.behavior(),
    {
        self.drop_behavior
    }

    pub fn set_drop_behavior(&mut self, drop_behavior: DropBehavior)
        ensures
            final(self).behavior() == drop_behavior,
    {
        self.drop_behavior = drop_behavior;
    }

    /// The statement that commits the transaction.
    pub fn commit(self) -> (sql: String)
        ensures
            sql@ == "COMMIT"@,
    {
        String::from_str("COMMIT")
    }

    /// The statement that rolls the transaction back.
    pub fn rollback(self) -> (sql: String)
        ensures
            sql@ == "ROLLBACK"@,
    {
        String::from_str("ROLLBACK")
    }

    /// What is to be run when the transaction is finished. `autocommit`
    /// says whether the engine is outside any transaction; then nothing is
    /// left to do.
    pub fn finish(self, autocommit: bool) -> (f: Finish)
        requires
            autocommit || self.behavior() != DropBehavior::Panic,
        ensures
            autocommit ==> f is Nothing,
            !autocommit ==> match self.behavior() {
                DropBehavior::Commit => f matches Finish::RunOrElse(a, b) && a@ == "COMMIT"@ && b@
                    == "ROLLBACK"@,
                DropBehavior::Rollback => f matches Finish::Run(a) && a@ == "ROLLBACK"@,
                DropBehavior::Ignore => f is Nothing,
                DropBehavior::Panic => false,
            },
    {
        if autocommit {
            return Finish::Nothing;
        }
        match self.drop_behavior {
            DropBehavior::Commit => Finish::RunOrElse(
                String::from_str("COMMIT"),
                String::from_str("ROLLBACK"),
            ),
            DropBehavior::Rollback => Finish::Run(String::from_str("ROLLBACK")),
            DropBehavior::Ignore => Finish::Nothing,
            DropBehavior::Panic => Finish::Nothing,
        }
    }
}

/// A savepoint that was set.
#[derive(Debug)]
pub struct Savepoint {
    name: String,
    depth: u32,
    drop_behavior: DropBehavior,
    committed: bool,
}

impl Savepoint {
    /// The name of the savepoint.
    pub closed spec fn name(&self) -> Seq<char> {
        self.name@
    }

    /// How many savepoints lie around this one.
    pub closed spec fn depth(&self) -> u32 {
        self.depth
    }

    /// What becomes of the savepoint when it is finished.
    pub closed spec fn behavior(&self) -> DropBehavior {
        self.drop_behavior
    }

    /// Whether the savepoint was released.
    pub closed spec fn committed(&self) -> bool {
        self.committed
    }

    fn with_depth_and_name(depth: u32, name: String) -> (r: (Savepoint, String))
        ensures
            r.0.name() == name@,
            r.0.depth() == depth,
            r.0.behavior() == DropBehavior::Rollback,
            !r.0.committed(),
            r.1@ == "SAVEPOINT "@ + name@,
    {
        let mut sql = String::from_str("SAVEPOINT ");
        sql.append(name.as_str());
        (Savepoint { name, depth, drop_behavior: DropBehavior::Rollback, committed: false }, sql)
    }

    fn with_depth(depth: u32) -> (r: (Savepoint, String))
        ensures
            r.0.name() == spec_savepoint_name(depth),
            r.0.depth() == depth,
            r.0.behavior() == DropBehavior::Rollback,
            !r.0.committed(),
            r.1@ == "SAVEPOINT "@ + spec_savepoint_name(depth),
    {
        let name = savepoint_name(depth);
        Savepoint::with_depth_and_name(depth, name)
    }

    /// A savepoint outside any other, and the statement that sets it.
    pub fn new() -> (r: (Savepoint, String))
        ensures
            r.0.name() == spec_savepoint_name(0),
            r.0.depth() == 0,
            r.0.behavior() == DropBehavior::Rollback,
            !r.0.committed(),
            r.1@ == "SAVEPOINT "@ + spec_savepoint_name(0),
    {
        Savepoint::with_depth(0)
    }

    /// A savepoint of the given name outside any other, and the statement
    /// that sets it.
    pub fn with_name(name: String) -> (r: (Savepoint, String))
        ensures
            r.0.name() == name@,
            r.0.depth() == 0,
            r.0.behavior() == DropBehavior::Rollback,
            !r.0.committed(),
            r.1@ == "SAVEPOINT "@ + name@,
    {
        Savepoint::with_depth_and_name(0, name)
    }

    /// A savepoint inside this one, and the statement that sets it.
    pub fn savepoint(&mut self) -> (r: (Savepoint, String))
        requires
            old(self).depth() < u32::MAX,
        ensures
            *final(self) == *old(self),
            r.0.name() == spec_savepoint_name((old(self).depth() + 1) as u32),
            r.0.depth() == old(self).depth() + 1,
            r.0.behavior() == DropBehavior::Rollback,
            !r.0.committed(),
            r.1@ == "SAVEPOINT "@ + spec_savepoint_name((old(self).depth() + 1) as u32),
    {
        Savepoint::with_depth(self.depth + 1)
    }

    /// A savepoint of the given name inside this one, and the statement
    /// that sets it.
    pub fn savepoint_with_name(&mut self, name: String) -> (r: (Savepoint, String))
        requires
            old(self).depth() < u32::MAX,
        ensures
            *final(self) == *old(self),
            r.0.name() == name@,
            r.0.depth() == old(self).depth() + 1,
            r.0.behavior() == DropBehavior::Rollback,
            !r.0.committed(),
            r.1@ == "SAVEPOINT "@ + name@,
    {
        Savepoint::with_depth_and_name(self.depth + 1, name)
    }

    pub fn drop_behavior(&self) -> (b: DropBehavior)
        ensures
            b == self.behavior(),
    {
        self.drop_behavior
    }

    pub fn set_drop_behavior(&mut self, drop_behavior: DropBehavior)
        ensures
            final(self).behavior() == drop_behavior,
            final(self).name() == old(self).name(),
            final(self).depth() == old(self).depth(),
            final(self).committed() == old(self).committed(),
    {
        self.drop_behavior = drop_behavior;
    }

    fn release_sql(&self) -> (sql: String)
        ensures
            sql@ == "RELEASE "@ + self.name(),
    {
        let mut sql = String::from_str("RELEASE ");
        sql.append(self.name.as_str());
        sql
    }

    /// The statement that releases the savepoint and so keeps what was
    /// done since it was set.
    pub fn commit(self) -> (sql: String)
        ensures
            sql@ == "RELEASE "@ + self.name(),
    {
        self.release_sql()
    }

    /// The statement that undoes what was done since the savepoint was
    /// set. The savepoint stays.
    pub fn rollback(&mut self) -> (sql: String)
        ensures
            *final(self) == *old(self),
            sql@ == "ROLLBACK TO "@ + old(self).name(),
    {
        let mut sql = String::from_str("ROLLBACK TO ");
        sql.append(self.name.as_str());
        sql
    }

    /// Records that the savepoint was released.
    pub fn set_committed(&mut self)
        ensures
            final(self).committed(),
            final(self).name() == old(self).name(),
            final(self).depth() == old(self).depth(),
            final(self).behavior() == old(self).behavior(),
    {
        self.committed = true;
    }

    /// What is to be run when the savepoint is finished; nothing where it
    /// was released.
    pub fn finish(self) -> (f: Finish)
        requires
            self.committed() || self.behavior() != DropBehavior::Panic,
        ensures
            self.committed() ==> f is Nothing,
            !self.committed() ==> match self.behavior() {
                DropBehavior::Commit => f matches Finish::RunOrElse(a, b) && a@ == "RELEASE "@
                    + self.name() && b@ == "ROLLBACK TO "@ + self.name(),
                DropBehavior::Rollback => f matches Finish::Run(a) && a@ == "ROLLBACK TO "@
                    + self.name(),
                DropBehavior::Ignore => f is Nothing,
                DropBehavior::Panic => false,
            },
    {
        if self.committed {
            return Finish::Nothing;
        }
        let mut this = self;
        match this.drop_behavior {
            DropBehavior::Commit => {
                let release = this.release_sql();
                let back = this.rollback();
                Finish::RunOrElse(release, back)
            },
            DropBehavior::Rollback => Finish::Run(this.rollback()),
            DropBehavior::Ignore => Finish::Nothing,
            DropBehavior::Panic => Finish::Nothing,
        }
    }
}

} // verus!
