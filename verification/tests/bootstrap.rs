use dht_client::bootstrap::{Bootstrap, BootstrapStep};
use dht_client::client::Client;
use dht_client::port::{PortError, PutReply};

#[test]
fn addresses_come_before_the_bootstrap() {
    let mut bootstrap = Bootstrap::new(3);
    assert_eq!(bootstrap.step(), BootstrapStep::AddAddress(0));
    assert_eq!(bootstrap.step(), BootstrapStep::AddAddress(0));
    bootstrap.record_reply(&Ok(()));
    assert_eq!(bootstrap.step(), BootstrapStep::AddAddress(1));
    bootstrap.record_reply(&Ok(()));
    assert_eq!(bootstrap.step(), BootstrapStep::AddAddress(2));
    bootstrap.record_reply(&Ok(()));
    assert_eq!(bootstrap.step(), BootstrapStep::Bootstrap);
    bootstrap.record_reply(&Ok(()));
    assert_eq!(bootstrap.step(), BootstrapStep::Succeeded);
}

#[test]
fn no_nodes_go_straight_to_the_bootstrap() {
    let mut bootstrap = Bootstrap::new(0);
    assert_eq!(bootstrap.step(), BootstrapStep::Bootstrap);
    bootstrap.record_reply(&Ok(()));
    assert_eq!(bootstrap.step(), BootstrapStep::Succeeded);
}

#[test]
fn the_first_failed_address_ends_the_call() {
    let mut bootstrap = Bootstrap::new(3);
    bootstrap.record_reply(&Ok(()));
    assert_eq!(bootstrap.step(), BootstrapStep::AddAddress(1));
    bootstrap.record_reply(&Err(PortError::CommandChannelClosed));
    assert_eq!(bootstrap.step(), BootstrapStep::Failed(PortError::CommandChannelClosed));
    bootstrap.record_reply(&Ok(()));
    assert_eq!(bootstrap.step(), BootstrapStep::Failed(PortError::CommandChannelClosed));
    bootstrap.record_reply(&Err(PortError::Engine));
    assert_eq!(bootstrap.step(), BootstrapStep::Failed(PortError::CommandChannelClosed));
}

#[test]
fn a_failed_bootstrap_ends_the_call() {
    let mut bootstrap = Bootstrap::new(1);
    bootstrap.record_reply(&Ok(()));
    assert_eq!(bootstrap.step(), BootstrapStep::Bootstrap);
    bootstrap.record_reply(&Err(PortError::Engine));
    assert_eq!(bootstrap.step(), BootstrapStep::Failed(PortError::Engine));
}

#[test]
fn a_bootstrap_that_succeeded_stays_so() {
    let mut bootstrap = Bootstrap::new(0);
    bootstrap.record_reply(&Ok(()));
    bootstrap.record_reply(&Err(PortError::Engine));
    assert_eq!(bootstrap.step(), BootstrapStep::Succeeded);
}

#[test]
fn the_whole_call_returns_the_first_error() {
    let client = Client::new(1, 1);
    let ok: PutReply = Ok(());
    assert_eq!(client.bootstrap(0, &[ok]), Ok(()));
    assert_eq!(client.bootstrap(2, &[ok, ok, ok]), Ok(()));
    assert_eq!(client.bootstrap(0, &[Err(PortError::Engine)]), Err(PortError::Engine));
    assert_eq!(
        client.bootstrap(2, &[ok, Err(PortError::ReplyChannelClosed), Err(PortError::Engine)]),
        Err(PortError::ReplyChannelClosed)
    );
    assert_eq!(
        client.bootstrap(2, &[Err(PortError::Engine), ok, ok]),
        Err(PortError::Engine)
    );
    assert_eq!(
        client.bootstrap(2, &[ok, ok, Err(PortError::CommandChannelClosed)]),
        Err(PortError::CommandChannelClosed)
    );
}

#[test]
fn the_client_keeps_its_settings() {
    let client = Client::new(17, 86_400);
    assert_eq!(client.dht_parallelization_limit(), 17);
    assert_eq!(client.ttl(), 86_400);
    let copy = client;
    assert_eq!(copy.dht_parallelization_limit(), 17);
    assert_eq!(copy.ttl(), 86_400);
}
