//! What the access point is set up with.

use vstd::prelude::*;

verus! {

/// Name of the open network.
pub const SSID: &'static str = "PicoBlink";

/// Radio channel of the open network.
pub const WIFI_CHANNEL: u8 = 5;

/// Address of the access point itself.
pub const SERVER_IP: [u8; 4] = [192, 168, 4, 1];

/// The one address that is leased to clients.
pub const CLIENT_IP: [u8; 4] = [192, 168, 4, 42];

/// The network is `PicoBlink` on channel 5. The server is 192.168.4.1, and the
/// client's address is another one of the same 256.
pub proof fn law_network()
    ensures
        SSID@ == "PicoBlink"@,
        WIFI_CHANNEL == 5,
        SERVER_IP@ == seq![192u8, 168, 4, 1],
        CLIENT_IP@ == seq![192u8, 168, 4, 42],
        forall|i: int| 0 <= i < 3 ==> #[trigger] CLIENT_IP@[i] == SERVER_IP@[i],
        CLIENT_IP@[3] != SERVER_IP@[3],
{
    assert(SERVER_IP@ =~= seq![192u8, 168, 4, 1]);
    assert(CLIENT_IP@ =~= seq![192u8, 168, 4, 42]);
}

} // verus!
