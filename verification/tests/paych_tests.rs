use msg_chain::paych::{key_for_channel, PaychStore};

#[test]
fn new_store_is_empty() {
    let s = PaychStore::new();
    assert!(s.ds.is_empty());
}

#[test]
fn default_store_is_empty() {
    let s: PaychStore = Default::default();
    assert!(s.ds.is_empty());
}

#[test]
fn channel_key_carries_the_prefix() {
    assert_eq!(key_for_channel(String::from("abc")), "ChannelInfo/abc");
    assert_eq!(key_for_channel(String::new()), "ChannelInfo/");
}
