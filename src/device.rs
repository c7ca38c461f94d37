//! Settings for reaching a NeuroSky headset over Bluetooth: which adapter to
//! use, the name of the headset, and the RFCOMM channel.

use vstd::prelude::*;

verus! {

/// The name of the headset that is looked for unless another is set.
pub open spec fn default_target_name() -> Seq<char> {
    seq!['M', 'y', 'n', 'd', 'B', 'a', 'n', 'd']
}

/// The RFCOMM channel used unless another is set.
pub const DEFAULT_CHANNEL: u8 = 5;

/// Configuration for connecting to a NeuroSky device over Bluetooth.
#[derive(Debug)]
pub struct DeviceConfig {
    /// The name of the Bluetooth adapter to use.
    /// If not provided, the default adapter is used.
    pub adapter: Option<String>,
    /// The name of the target device. Default: "MyndBand".
    pub target_name: String,
    /// RFCOMM channel. Default: 5.
    pub channel: u8,
}

impl Default for DeviceConfig {
    fn default() -> (r: DeviceConfig)
        ensures
            r.adapter is None,
            r.target_name@ == default_target_name(),
            r.channel == DEFAULT_CHANNEL,
    {
        proof {
            reveal_strlit("MyndBand");
        }
        let name = "MyndBand";
        let r = DeviceConfig { adapter: None, target_name: name.to_string(), channel: DEFAULT_CHANNEL };
        assert(r.target_name@ =~= default_target_name());
        r
    }
}

impl DeviceConfig {
    /// Sets the Bluetooth adapter by name.
    pub fn with_adapter(self, adapter: String) -> (r: Self)
        ensures
            r.adapter == Some(adapter),
            r.target_name == self.target_name,
            r.channel == self.channel,
    {
        let mut c = self;
        c.adapter = Some(adapter);
        c
    }

    /// Sets the name of the target device.
    pub fn with_name(self, name: String) -> (r: Self)
        ensures
            r.adapter == self.adapter,
            r.target_name == name,
            r.channel == self.channel,
    {
        let mut c = self;
        c.target_name = name;
        c
    }

    /// Sets the RFCOMM channel used to connect to the target device.
    pub fn with_channel(self, channel: u8) -> (r: Self)
        ensures
            r.adapter == self.adapter,
            r.target_name == self.target_name,
            r.channel == channel,
    {
        let mut c = self;
        c.channel = channel;
        c
    }

    /// Whether a device that reports `name` (or no name) during discovery
    /// is the target device.
    pub fn is_target(&self, name: &Option<String>) -> (r: bool)
        ensures
            r == (name is Some && name->Some_0@ == self.target_name@),
    {
        match name {
            Some(n) => *n == self.target_name,
            None => false,
        }
    }
}

} // verus!
