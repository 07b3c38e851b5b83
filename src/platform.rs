use vstd::prelude::*;
use vstd::string::StringSliceAdditionalSpecFns;

verus! {

/// The Macintosh platform of `cmap` encoding records.
pub const PLATFORM_MACINTOSH: u16 = 1;

/// The Windows platform of `cmap` encoding records.
pub const PLATFORM_WINDOWS: u16 = 3;

/// The custom platform, for any other operating system.
pub const PLATFORM_CUSTOM: u16 = 4;

pub open spec fn linux_name() -> Seq<u8> {
    seq![0x4c, 0x69, 0x6e, 0x75, 0x78]
}

pub open spec fn windows_name() -> Seq<u8> {
    seq![0x57, 0x69, 0x6e, 0x64, 0x6f, 0x77, 0x73]
}

pub open spec fn macos_name() -> Seq<u8> {
    seq![0x4d, 0x61, 0x63, 0x4f, 0x53]
}

/// The `cmap` platform preferred on the operating system named `os`.
pub open spec fn platform_for(os: Seq<u8>) -> u16 {
    if os == linux_name() || os == windows_name() {
        PLATFORM_WINDOWS
    } else if os == macos_name() {
        PLATFORM_MACINTOSH
    } else {
        PLATFORM_CUSTOM
    }
}

fn same_bytes(a: &[u8], b: &Vec<u8>) -> (r: bool)
    ensures
        r == (a@ == b@),
{
    if a.len() != b.len() {
        return false;
    }
    let mut i: usize = 0;
    while i < a.len()
        invariant
            a@.len() == b@.len(),
            i <= a@.len(),
            forall|j: int| 0 <= j < i ==> a@[j] == b@[j],
        decreases a@.len() - i,
    {
        if a[i] != b[i] {
            return false;
        }
        i = i + 1;
    }
    assert(a@ =~= b@);
    true
}

/// Maps an operating system name, as the system reports it, to the `cmap`
/// platform whose subtable is preferred there.
pub fn platform_id_for_os(os_type: &str) -> (r: u16)
    ensures
        r == platform_for(os_type.spec_bytes()),
{
    let bytes = os_type.as_bytes();
    let linux: Vec<u8> = vec![0x4c, 0x69, 0x6e, 0x75, 0x78];
    let windows: Vec<u8> = vec![0x57, 0x69, 0x6e, 0x64, 0x6f, 0x77, 0x73];
    let macos: Vec<u8> = vec![0x4d, 0x61, 0x63, 0x4f, 0x53];
    assert(linux@ =~= linux_name());
    assert(windows@ =~= windows_name());
    assert(macos@ =~= macos_name());
    if same_bytes(bytes, &linux) || same_bytes(bytes, &windows) {
        PLATFORM_WINDOWS
    } else if same_bytes(bytes, &macos) {
        PLATFORM_MACINTOSH
    } else {
        PLATFORM_CUSTOM
    }
}

} // verus!
