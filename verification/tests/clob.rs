use alloy::primitives::{Address, U256};
use polymarket::clob::{ClobAuth, ClobClient};
use polymarket::constants::{DEFAULT_MESSAGE, HOST, POLYGON_CHAIN_ID, SIGNATURE_TYPE_BROWSER_WALLET};
use polymarket::messages::AuthPayload;

#[test]
fn clob_settings_hold_their_values() {
    let auth = ClobAuth {
        address: Address::ZERO,
        message: DEFAULT_MESSAGE.to_string(),
        timestamp: "0".to_string(),
        nonce: U256::from(7u64),
    };
    assert_eq!(auth.nonce, U256::from(7u64));
    let client = ClobClient {
        host: HOST.to_string(),
        key: "key".to_string(),
        chain_id: POLYGON_CHAIN_ID,
        signature_type: SIGNATURE_TYPE_BROWSER_WALLET,
        funder: auth.address,
        auth: AuthPayload {
            api_key: "k".to_string(),
            secret: "s".to_string(),
            passphrase: "p".to_string(),
        },
    };
    assert_eq!(client.chain_id, 137);
    assert_eq!(client.signature_type, 2);
    assert_eq!(client.host, "https://clob.polymarket.com");
    assert_eq!(client.funder, Address::ZERO);
}
