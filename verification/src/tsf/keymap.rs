//! Windows virtual-key mapping to session keys.
use crate::tsf::session::Key;
use vstd::prelude::*;

verus! {

/// Windows virtual-key values used by the shell.
pub const VK_BACK: u32 = 0x08;

pub const VK_TAB: u32 = 0x09;

pub const VK_ESCAPE: u32 = 0x1B;

pub const VK_SPACE: u32 = 0x20;

pub const VK_PRIOR: u32 = 0x21;

pub const VK_NEXT: u32 = 0x22;

pub const VK_OEM_MINUS: u32 = 0xBD;

pub const VK_OEM_PLUS: u32 = 0xBB;

/// The session key a virtual key stands for, if any.
pub open spec fn map_vk_spec(vk: u32) -> Option<Key> {
    if vk == VK_BACK {
        Some(Key::Backspace)
    } else if vk == VK_ESCAPE {
        Some(Key::Escape)
    } else if vk == VK_SPACE {
        Some(Key::Space)
    } else if vk == VK_PRIOR || vk == VK_OEM_MINUS {
        Some(Key::PagePrev)
    } else if vk == VK_NEXT || vk == VK_TAB || vk == VK_OEM_PLUS {
        Some(Key::PageNext)
    } else if 0x31 <= vk <= 0x39 {
        Some(Key::Digit((vk - 0x30) as u8))
    } else if 0x41 <= vk <= 0x5A {
        Some(Key::Char(((vk + 0x20) as u8) as char))
    } else {
        None
    }
}

/// Maps a Windows virtual key to the platform-independent session key:
/// letters map to their lowercase character, `1`-`9` to digits.
pub fn map_vk(vk: u32) -> (r: Option<Key>)
    ensures
        r == map_vk_spec(vk),
{
    if vk == VK_BACK {
        Some(Key::Backspace)
    } else if vk == VK_ESCAPE {
        Some(Key::Escape)
    } else if vk == VK_SPACE {
        Some(Key::Space)
    } else if vk == VK_PRIOR || vk == VK_OEM_MINUS {
        Some(Key::PagePrev)
    } else if vk == VK_NEXT || vk == VK_TAB || vk == VK_OEM_PLUS {
        Some(Key::PageNext)
    } else if 0x31 <= vk && vk <= 0x39 {
        Some(Key::Digit((vk - 0x30) as u8))
    } else if 0x41 <= vk && vk <= 0x5A {
        Some(Key::Char(((vk + 0x20) as u8) as char))
    } else {
        None
    }
}

} // verus!
