//! The portfolio aggregate: accounts created, renamed, and deleted through
//! commands that emit events.

use vstd::prelude::*;
use crate::aggregate::Aggregate;
use crate::decimal::Decimal;

verus! {

/// A position held inside an account.
#[derive(Debug, PartialEq, Clone)]
pub struct Asset {
    name: String,
    id: String,
    quantity: Decimal,
    price: Decimal,
    currency: String,
}

/// An account of the portfolio.
#[derive(Debug, PartialEq, Clone)]
pub struct Account {
    /// Display name of the account.
    pub name: String,
    /// Unique identifier of the account.
    pub id: String,
    /// Positions held by the account.
    pub assets: Vec<Asset>,
}

impl Account {
    /// A fresh, empty account.
    pub fn new(id: String, name: String) -> (r: Account)
        ensures
            r.id == id,
            r.name == name,
            r.assets@.len() == 0,
    {
        Account { name, id, assets: Vec::new() }
    }

    /// A copy of this account: same id, name, and assets.
    fn duplicate(&self) -> (r: Account)
        ensures
            r.id == self.id,
            r.name == self.name,
            r.assets@ == self.assets@,
    {
        let mut assets: Vec<Asset> = Vec::new();
        let n = self.assets.len();
        let mut i: usize = 0;
        while i < n
            invariant
                i <= n,
                n == self.assets@.len(),
                assets@ =~= self.assets@.subrange(0, i as int),
            decreases n - i,
        {
            let a = &self.assets[i];
            assets.push(
                Asset {
                    name: a.name.clone(),
                    id: a.id.clone(),
                    quantity: a.quantity,
                    price: a.price,
                    currency: a.currency.clone(),
                },
            );
            i = i + 1;
        }
        proof {
            assert(assets@ =~= self.assets@);
        }
        Account { name: self.name.clone(), id: self.id.clone(), assets }
    }
}

/// Commands the portfolio decides on.
#[derive(Debug)]
pub enum PortfolioCommand {
    /// Create a new account with the given name and id.
    CreateAccount { name: String, id: String },
    /// Delete the account with the given id.
    DeleteAccount { id: String },
    /// Rename the account with the given id.
    UpdateAccount { id: String, name: String },
}

/// Events the portfolio emits.
#[derive(Debug, PartialEq, Clone)]
pub enum PortfolioEvent {
    /// An account was created.
    AccountCreated(Account),
    /// An account was deleted.
    AccountDeleted(Account),
    /// An account was renamed.
    AccountUpdated(Account),
}

/// Why a command was rejected.
#[derive(Debug, PartialEq, Eq)]
pub enum PortfolioError {
    /// A create command named an id that already exists.
    AccountAlreadyExists,
    /// An update or delete command named an unknown id.
    AccountDoesNotExist,
}

/// Index of the first account with the given id, from position `i`.
pub open spec fn account_index_from(s: Seq<Account>, id: Seq<char>, i: int) -> Option<int>
    decreases s.len() - i when 0 <= i
{
    if i >= s.len() {
        None
    } else if s[i].id@ == id {
        Some(i)
    } else {
        account_index_from(s, id, i + 1)
    }
}

/// Index of the first account with the given id.
pub open spec fn account_index(s: Seq<Account>, id: Seq<char>) -> Option<int> {
    account_index_from(s, id, 0)
}

/// The accounts of `s` without those carrying the given id.
pub open spec fn without_account(s: Seq<Account>, id: Seq<char>) -> Seq<Account>
    decreases s.len(),
{
    if s.len() == 0 {
        Seq::empty()
    } else {
        let rest = without_account(s.drop_first(), id);
        if s.first().id@ == id {
            rest
        } else {
            seq![s.first()] + rest
        }
    }
}

/// A collection of accounts driven by commands.
#[derive(Debug)]
pub struct Portfolio {
    /// The accounts, in creation order.
    pub accounts: Vec<Account>,
}

impl Portfolio {
    /// An empty portfolio.
    pub fn new() -> (r: Portfolio)
        ensures
            r.accounts@.len() == 0,
    {
        Portfolio { accounts: Vec::new() }
    }

    /// The account with the given id, copied out, if any.
    pub fn find_account_by_id(&self, id: &str) -> (r: Option<Account>)
        ensures
            r matches Some(a) ==> (account_index(self.accounts@, id@) matches Some(i) && a.id
                == self.accounts@[i].id && a.name == self.accounts@[i].name && a.assets@
                == self.accounts@[i].assets@),
            r is None <==> account_index(self.accounts@, id@) is None,
    {
        let key = id.to_owned();
        let n = self.accounts.len();
        let mut i: usize = 0;
        while i < n
            invariant
                i <= n,
                n == self.accounts@.len(),
                key@ == id@,
                account_index(self.accounts@, id@) == account_index_from(
                    self.accounts@,
                    id@,
                    i as int,
                ),
            decreases n - i,
        {
            if self.accounts[i].id == key {
                return Some(self.accounts[i].duplicate());
            }
            i = i + 1;
        }
        None
    }

    /// Decide a command.  Creating an existing id or touching a missing one
    /// is rejected; a successful update renames the account in place, while
    /// create and delete only emit their event.
    pub fn handle_command(&mut self, command: PortfolioCommand) -> (r: Result<
        Vec<PortfolioEvent>,
        PortfolioError,
    >)
        ensures
            match command {
                PortfolioCommand::CreateAccount { name, id } => {
                    if account_index(old(self).accounts@, id@) is Some {
                        r == Err::<Vec<PortfolioEvent>, PortfolioError>(
                            PortfolioError::AccountAlreadyExists,
                        ) && final(self).accounts@ == old(self).accounts@
                    } else {
                        &&& r matches Ok(es)
                        &&& es@.len() == 1
                        &&& es@[0] matches PortfolioEvent::AccountCreated(a)
                        &&& a.id == id
                        &&& a.name == name
                        &&& final(self).accounts@ == old(self).accounts@
                    }
                },
                PortfolioCommand::DeleteAccount { id } => {
                    match account_index(old(self).accounts@, id@) {
                        Some(i) => {
                            &&& r matches Ok(es)
                            &&& es@.len() == 1
                            &&& es@[0] matches PortfolioEvent::AccountDeleted(a)
                            &&& a.id == old(self).accounts@[i].id
                            &&& a.name == old(self).accounts@[i].name
                            &&& a.assets@ == old(self).accounts@[i].assets@
                            &&& final(self).accounts@ == old(self).accounts@
                        },
                        None => r == Err::<Vec<PortfolioEvent>, PortfolioError>(
                            PortfolioError::AccountDoesNotExist,
                        ) && final(self).accounts@ == old(self).accounts@,
                    }
                },
                PortfolioCommand::UpdateAccount { id, name } => {
                    match account_index(old(self).accounts@, id@) {
                        Some(i) => {
                            let renamed = Account {
                                name: name,
                                id: old(self).accounts@[i].id,
                                assets: old(self).accounts@[i].assets,
                            };
                            &&& r matches Ok(es)
                            &&& es@.len() == 1
                            &&& es@[0] matches PortfolioEvent::AccountUpdated(a)
                            &&& a.id == renamed.id
                            &&& a.name == renamed.name
                            &&& a.assets@ == renamed.assets@
                            &&& final(self).accounts@ == old(self).accounts@.update(i, renamed)
                        },
                        None => r == Err::<Vec<PortfolioEvent>, PortfolioError>(
                            PortfolioError::AccountDoesNotExist,
                        ) && final(self).accounts@ == old(self).accounts@,
                    }
                },
            },
    {
        match command {
            PortfolioCommand::CreateAccount { name, id } => {
                if self.index_of(id.as_str()).is_some() {
                    return Err(PortfolioError::AccountAlreadyExists);
                }
                let account = Account::new(id, name);
                let mut events: Vec<PortfolioEvent> = Vec::new();
                events.push(PortfolioEvent::AccountCreated(account));
                Ok(events)
            },
            PortfolioCommand::DeleteAccount { id } => {
                let i = match self.index_of(id.as_str()) {
                    Some(i) => i,
                    None => {
                        return Err(PortfolioError::AccountDoesNotExist);
                    },
                };
                let account = self.accounts[i].duplicate();
                let mut events: Vec<PortfolioEvent> = Vec::new();
                events.push(PortfolioEvent::AccountDeleted(account));
                Ok(events)
            },
            PortfolioCommand::UpdateAccount { id, name } => {
                let i = match self.index_of(id.as_str()) {
                    Some(i) => i,
                    None => {
                        return Err(PortfolioError::AccountDoesNotExist);
                    },
                };
                let current = self.accounts.remove(i);
                let renamed = Account { name, id: current.id, assets: current.assets };
                let copy = renamed.duplicate();
                self.accounts.insert(i, renamed);
                proof {
                    assert(self.accounts@ =~= old(self).accounts@.update(
                        i as int,
                        self.accounts@[i as int],
                    ));
                }
                let mut events: Vec<PortfolioEvent> = Vec::new();
                events.push(PortfolioEvent::AccountUpdated(copy));
                Ok(events)
            },
        }
    }

    /// Apply an event: creation appends the account, deletion removes every
    /// account with its id, and a rename event changes nothing because the
    /// rename already happened when the command was decided.
    pub fn apply_event(&mut self, event: PortfolioEvent)
        ensures
            match event {
                PortfolioEvent::AccountCreated(a) => final(self).accounts@ == old(
                    self,
                ).accounts@.push(a),
                PortfolioEvent::AccountDeleted(a) => final(self).accounts@ == without_account(
                    old(self).accounts@,
                    a.id@,
                ),
                PortfolioEvent::AccountUpdated(a) => final(self).accounts@ == old(self).accounts@,
            },
    {
        match event {
            PortfolioEvent::AccountCreated(account) => {
                self.accounts.push(account);
            },
            PortfolioEvent::AccountDeleted(account) => {
                let mut rest: Vec<Account> = Vec::new();
                core::mem::swap(&mut rest, &mut self.accounts);
                let ghost orig = rest@;
                let mut kept: Vec<Account> = Vec::new();
                while rest.len() > 0
                    invariant
                        kept@ + without_account(rest@, account.id@) == without_account(
                            orig,
                            account.id@,
                        ),
                    ensures
                        rest@.len() == 0,
                        kept@ + without_account(rest@, account.id@) == without_account(
                            orig,
                            account.id@,
                        ),
                    decreases rest@.len(),
                {
                    let ghost before = rest@;
                    let a = rest.remove(0);
                    proof {
                        assert(rest@ =~= before.drop_first());
                        assert(a == before.first());
                    }
                    let same = a.id == account.id;
                    if !same {
                        kept.push(a);
                        proof {
                            assert(kept@ + without_account(rest@, account.id@) =~= without_account(
                                orig,
                                account.id@,
                            ));
                        }
                    }
                }
                proof {
                    assert(without_account(rest@, account.id@) =~= Seq::<Account>::empty());
                    assert(kept@ =~= without_account(orig, account.id@));
                }
                self.accounts = kept;
            },
            PortfolioEvent::AccountUpdated(_) => {},
        }
    }

    /// Index of the account with the given id, if any.
    fn index_of(&self, id: &str) -> (r: Option<usize>)
        ensures
            r matches Some(i) ==> i < self.accounts@.len() && account_index(self.accounts@, id@)
                == Some(i as int),
            r is None <==> account_index(self.accounts@, id@) is None,
    {
        let key = id.to_owned();
        let n = self.accounts.len();
        let mut i: usize = 0;
        while i < n
            invariant
                i <= n,
                n == self.accounts@.len(),
                key@ == id@,
                account_index(self.accounts@, id@) == account_index_from(
                    self.accounts@,
                    id@,
                    i as int,
                ),
            decreases n - i,
        {
            if self.accounts[i].id == key {
                return Some(i);
            }
            i = i + 1;
        }
        None
    }
}

impl Aggregate for Portfolio {
    type Event = PortfolioEvent;

    type Command = PortfolioCommand;

    type Error = PortfolioError;

    fn handle(&mut self, command: PortfolioCommand) -> Result<Vec<PortfolioEvent>, PortfolioError> {
        self.handle_command(command)
    }

    fn apply(&mut self, event: PortfolioEvent) {
        self.apply_event(event)
    }
}

} // verus!
