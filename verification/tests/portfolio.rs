use bullboard::portfolio::Account;
use bullboard::portfolio::Portfolio;
use bullboard::portfolio::PortfolioCommand;
use bullboard::portfolio::PortfolioError;
use bullboard::portfolio::PortfolioEvent;

fn decide_and_apply(
    portfolio: &mut Portfolio,
    command: PortfolioCommand,
) -> Vec<PortfolioEvent> {
    let events = portfolio.handle_command(command).expect("command was rejected");
    for event in events.clone() {
        portfolio.apply_event(event);
    }
    events
}

#[test]
fn test_that_create_account_creates_account() {
    let mut portfolio = Portfolio::new();
    let account = Account::new("1337".to_string(), "test".to_string());

    let events = decide_and_apply(
        &mut portfolio,
        PortfolioCommand::CreateAccount { name: "test".to_string(), id: "1337".to_string() },
    );
    assert_eq!(events, vec![PortfolioEvent::AccountCreated(account)]);
}

#[test]
fn test_that_create_account_doesnt_add_duplicates() {
    let mut portfolio = Portfolio::new();
    let account = Account::new("1337".to_string(), "test".to_string());
    portfolio.apply_event(PortfolioEvent::AccountCreated(account.clone()));

    let result = portfolio.handle_command(PortfolioCommand::CreateAccount {
        name: "test".to_string(),
        id: "1337".to_string(),
    });
    assert_eq!(result, Err(PortfolioError::AccountAlreadyExists));
}

#[test]
fn test_that_update_account_updates_account() {
    let mut portfolio = Portfolio::new();
    let account = Account::new("1337".to_string(), "test".to_string());
    let account2 = Account::new("1337".to_string(), "test2".to_string());
    portfolio.apply_event(PortfolioEvent::AccountCreated(account.clone()));

    let events = decide_and_apply(
        &mut portfolio,
        PortfolioCommand::UpdateAccount { name: "test2".to_string(), id: "1337".to_string() },
    );
    assert_eq!(events, vec![PortfolioEvent::AccountUpdated(account2)]);

    assert_eq!(portfolio.accounts[0].name, "test2");
}

#[test]
fn test_that_update_account_fails_on_nonexisting_account() {
    let mut portfolio = Portfolio::new();

    let result = portfolio.handle_command(PortfolioCommand::UpdateAccount {
        name: "test2".to_string(),
        id: "1337".to_string(),
    });
    assert_eq!(result, Err(PortfolioError::AccountDoesNotExist));
}

#[test]
fn test_that_delete_account_removes_account() {
    let mut portfolio = Portfolio::new();
    let account = Account::new("1337".to_string(), "test".to_string());
    portfolio.apply_event(PortfolioEvent::AccountCreated(account.clone()));

    let events = decide_and_apply(
        &mut portfolio,
        PortfolioCommand::DeleteAccount { id: "1337".to_string() },
    );
    assert_eq!(events, vec![PortfolioEvent::AccountDeleted(account)]);

    assert_eq!(portfolio.accounts.len(), 0);
}
