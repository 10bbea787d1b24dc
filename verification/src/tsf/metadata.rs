//! Static metadata for the text service profile registration.
use vstd::prelude::*;

verus! {

/// Display name shown in Windows language/input settings.
pub const PROFILE_DISPLAY_NAME: &'static str = "NovaType";

/// Profile description shown by hosts.
pub const PROFILE_DESCRIPTION: &'static str = "NovaType Chinese Input Method";

/// BCP-47 language tag for the initial Chinese profile.
pub const LANGUAGE_TAG: &'static str = "zh-CN";

/// Preferred icon resource index inside the service DLL.
pub const ICON_INDEX: i32 = 0;

/// The CLSID used for registration, installer scripts and profile
/// registration.
pub const TEXT_SERVICE_CLSID: &'static str = "{7E4B71B0-5C48-45E8-9E4E-4DFD16FE5E95}";

} // verus!
