//! Addresses of the program loaders.
use vstd::prelude::*;

verus! {

/// The deprecated BPF loader (v1). (`BPFLoader1111111111111111111111111111111111`)
pub const LOADER_V1: [u8; 32] = [2, 168, 246, 145, 78, 136, 161, 107, 189, 35, 149, 133, 95, 100, 4, 217, 180, 244, 86, 183, 130, 27, 176, 20, 87, 73, 66, 140, 0, 0, 0, 0];

/// The BPF loader (v2). (`BPFLoader2111111111111111111111111111111111`)
pub const LOADER_V2: [u8; 32] = [2, 168, 246, 145, 78, 136, 161, 110, 57, 90, 225, 40, 148, 143, 250, 105, 86, 147, 55, 104, 24, 221, 71, 67, 82, 33, 243, 198, 0, 0, 0, 0];

/// The upgradeable BPF loader (v3). (`BPFLoaderUpgradeab1e11111111111111111111111`)
pub const LOADER_V3: [u8; 32] = [2, 168, 246, 145, 78, 136, 161, 176, 226, 16, 21, 62, 247, 99, 174, 43, 0, 194, 185, 61, 22, 193, 36, 210, 192, 83, 122, 16, 4, 128, 0, 0];

/// The v4 loader. (`LoaderV411111111111111111111111111111111111`)
pub const LOADER_V4: [u8; 32] = [5, 18, 180, 17, 81, 81, 227, 122, 173, 10, 139, 197, 211, 136, 46, 123, 127, 218, 76, 243, 210, 192, 40, 200, 207, 131, 54, 24, 0, 0, 0, 0];

/// The native loader that owns builtin programs. (`NativeLoader1111111111111111111111111111111`)
pub const NATIVE_LOADER: [u8; 32] = [5, 135, 132, 191, 20, 139, 164, 40, 47, 176, 18, 87, 72, 136, 169, 241, 83, 160, 125, 173, 247, 101, 192, 69, 92, 154, 151, 3, 128, 0, 0, 0];

/// Whether `key` is one of the loaders a program can be registered under.
pub open spec fn is_loader(key: Seq<u8>) -> bool {
    key == NATIVE_LOADER@ || key == LOADER_V1@ || key == LOADER_V2@ || key == LOADER_V3@ || key
        == LOADER_V4@
}

} // verus!
