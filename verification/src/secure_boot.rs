use vstd::prelude::*;
use crate::text::str_eq;

verus! {

/// Secure boot verification chain for the guest OS.
#[derive(Debug, Clone)]
pub struct SecureBootChain {
    pub enabled: bool,
    pub uefi_firmware: Option<String>,
    pub shim_hash: Option<String>,
    pub bootloader_hash: Option<String>,
    pub kernel_hash: Option<String>,
    pub initramfs_hash: Option<String>,
}

/// The outcome of verifying a boot chain.
#[derive(Debug, Clone)]
pub struct SecureBootResult {
    pub verified: bool,
    pub reason: String,
}

/// The chain verifies: secure boot is on and every component has a hash.
pub open spec fn chain_verified(c: SecureBootChain) -> bool {
    &&& c.enabled
    &&& c.uefi_firmware is Some
    &&& c.shim_hash is Some
    &&& c.bootloader_hash is Some
    &&& c.kernel_hash is Some
    &&& c.initramfs_hash is Some
}

/// The reason given for a chain: why it fails, naming the first component
/// without a hash in boot order, or that it verifies.
pub open spec fn chain_reason(c: SecureBootChain) -> Seq<char> {
    if !c.enabled {
        "Secure boot disabled"@
    } else if c.uefi_firmware is None {
        "UEFI firmware"@ + " hash missing"@
    } else if c.shim_hash is None {
        "Shim"@ + " hash missing"@
    } else if c.bootloader_hash is None {
        "Bootloader"@ + " hash missing"@
    } else if c.kernel_hash is None {
        "Kernel"@ + " hash missing"@
    } else if c.initramfs_hash is None {
        "Initramfs"@ + " hash missing"@
    } else {
        "Full chain verified"@
    }
}

/// The chain after recording `hash` for the named component; a name that is
/// not one of `uefi`, `shim`, `bootloader`, `kernel`, `initramfs` changes
/// nothing.
pub open spec fn with_hash(c: SecureBootChain, component: Seq<char>, hash: String) -> SecureBootChain {
    if component == "uefi"@ {
        SecureBootChain { uefi_firmware: Some(hash), ..c }
    } else if component == "shim"@ {
        SecureBootChain { shim_hash: Some(hash), ..c }
    } else if component == "bootloader"@ {
        SecureBootChain { bootloader_hash: Some(hash), ..c }
    } else if component == "kernel"@ {
        SecureBootChain { kernel_hash: Some(hash), ..c }
    } else if component == "initramfs"@ {
        SecureBootChain { initramfs_hash: Some(hash), ..c }
    } else {
        c
    }
}

fn missing(component: &str) -> (r: SecureBootResult)
    ensures
        !r.verified,
        r.reason@ == component@ + " hash missing"@,
{
    SecureBootResult { verified: false, reason: String::from_str(component).concat(" hash missing") }
}

impl SecureBootChain {
    /// A chain with secure boot off and no hashes.
    pub fn disabled() -> (c: Self)
        ensures
            !c.enabled,
            c.uefi_firmware is None,
            c.shim_hash is None,
            c.bootloader_hash is None,
            c.kernel_hash is None,
            c.initramfs_hash is None,
    {
        SecureBootChain {
            enabled: false,
            uefi_firmware: None,
            shim_hash: None,
            bootloader_hash: None,
            kernel_hash: None,
            initramfs_hash: None,
        }
    }

    /// Verifies the chain: it holds when secure boot is on and every
    /// component, in boot order, has a hash.
    pub fn verify_chain(&self) -> (r: SecureBootResult)
        ensures
            r.verified == chain_verified(*self),
            r.reason@ == chain_reason(*self),
            r.verified <==> {
                &&& self.enabled
                &&& self.uefi_firmware is Some
                &&& self.shim_hash is Some
                &&& self.bootloader_hash is Some
                &&& self.kernel_hash is Some
                &&& self.initramfs_hash is Some
            },
            r.verified <==> r.reason@ == "Full chain verified"@,
    {
        proof {
            lemma_chain_verified_meaning(*self);
            lemma_reason_meaning(*self);
        }
        if !self.enabled {
            return SecureBootResult { verified: false, reason: String::from_str("Secure boot disabled") };
        }
        if self.uefi_firmware.is_none() {
            return missing("UEFI firmware");
        }
        if self.shim_hash.is_none() {
            return missing("Shim");
        }
        if self.bootloader_hash.is_none() {
            return missing("Bootloader");
        }
        if self.kernel_hash.is_none() {
            return missing("Kernel");
        }
        if self.initramfs_hash.is_none() {
            return missing("Initramfs");
        }
        SecureBootResult { verified: true, reason: String::from_str("Full chain verified") }
    }

    /// Records the hash of one component of the chain.
    pub fn set_hash(&mut self, component: &str, hash: String)
        ensures
            *final(self) == with_hash(*old(self), component@, hash),
            final(self).enabled == old(self).enabled,
            final(self).uefi_firmware == if component@ == "uefi"@ {
                Some(hash)
            } else {
                old(self).uefi_firmware
            },
            final(self).shim_hash == if component@ == "shim"@ {
                Some(hash)
            } else {
                old(self).shim_hash
            },
            final(self).bootloader_hash == if component@ == "bootloader"@ {
                Some(hash)
            } else {
                old(self).bootloader_hash
            },
            final(self).kernel_hash == if component@ == "kernel"@ {
                Some(hash)
            } else {
                old(self).kernel_hash
            },
            final(self).initramfs_hash == if component@ == "initramfs"@ {
                Some(hash)
            } else {
                old(self).initramfs_hash
            },
    {
        proof {
            lemma_with_hash_meaning(*old(self), component@, hash);
        }
        if str_eq(component, "uefi") {
            self.uefi_firmware = Some(hash);
        } else if str_eq(component, "shim") {
            self.shim_hash = Some(hash);
        } else if str_eq(component, "bootloader") {
            self.bootloader_hash = Some(hash);
        } else if str_eq(component, "kernel") {
            self.kernel_hash = Some(hash);
        } else if str_eq(component, "initramfs") {
            self.initramfs_hash = Some(hash);
        }
    }
}

proof fn lemma_literals_distinct()
    ensures
        "uefi"@ != "shim"@,
        "uefi"@ != "bootloader"@,
        "uefi"@ != "kernel"@,
        "uefi"@ != "initramfs"@,
        "shim"@ != "bootloader"@,
        "shim"@ != "kernel"@,
        "shim"@ != "initramfs"@,
        "bootloader"@ != "kernel"@,
        "bootloader"@ != "initramfs"@,
        "kernel"@ != "initramfs"@,
{
    reveal_strlit("uefi");
    reveal_strlit("shim");
    reveal_strlit("bootloader");
    reveal_strlit("kernel");
    reveal_strlit("initramfs");
    assert("uefi"@[0] == 'u');
    assert("shim"@[0] == 's');
    assert("bootloader"@[0] == 'b');
    assert("kernel"@[0] == 'k');
    assert("initramfs"@[0] == 'i');
}

/// A chain verifies exactly when secure boot is on and each of the five
/// components (UEFI firmware, shim, bootloader, kernel, initramfs) has a hash.
pub proof fn lemma_chain_verified_meaning(c: SecureBootChain)
    ensures
        chain_verified(c) <==> {
            &&& c.enabled
            &&& c.uefi_firmware is Some
            &&& c.shim_hash is Some
            &&& c.bootloader_hash is Some
            &&& c.kernel_hash is Some
            &&& c.initramfs_hash is Some
        },
{
}

/// The reason given for a chain: `Secure boot disabled` when it is off;
/// otherwise the first component in boot order without a hash, named in the
/// message `<name> hash missing`; and `Full chain verified` exactly when the
/// chain verifies.
pub proof fn lemma_reason_meaning(c: SecureBootChain)
    ensures
        !c.enabled ==> chain_reason(c) == "Secure boot disabled"@,
        c.enabled && c.uefi_firmware is None ==> chain_reason(c) == "UEFI firmware hash missing"@,
        c.enabled && c.uefi_firmware is Some && c.shim_hash is None ==> chain_reason(c)
            == "Shim hash missing"@,
        c.enabled && c.uefi_firmware is Some && c.shim_hash is Some && c.bootloader_hash is None
            ==> chain_reason(c) == "Bootloader hash missing"@,
        c.enabled && c.uefi_firmware is Some && c.shim_hash is Some && c.bootloader_hash is Some
            && c.kernel_hash is None ==> chain_reason(c) == "Kernel hash missing"@,
        c.enabled && c.uefi_firmware is Some && c.shim_hash is Some && c.bootloader_hash is Some
            && c.kernel_hash is Some && c.initramfs_hash is None ==> chain_reason(c)
            == "Initramfs hash missing"@,
        chain_reason(c) == "Full chain verified"@ <==> {
            &&& c.enabled
            &&& c.uefi_firmware is Some
            &&& c.shim_hash is Some
            &&& c.bootloader_hash is Some
            &&& c.kernel_hash is Some
            &&& c.initramfs_hash is Some
        },
{
    reveal_strlit("Secure boot disabled");
    reveal_strlit("UEFI firmware");
    reveal_strlit("UEFI firmware hash missing");
    reveal_strlit("Shim");
    reveal_strlit("Shim hash missing");
    reveal_strlit("Bootloader");
    reveal_strlit("Bootloader hash missing");
    reveal_strlit("Kernel");
    reveal_strlit("Kernel hash missing");
    reveal_strlit("Initramfs");
    reveal_strlit("Initramfs hash missing");
    reveal_strlit(" hash missing");
    reveal_strlit("Full chain verified");
    let full = "Full chain verified"@;
    assert(full[0] == 'F');
    assert("Secure boot disabled"@[0] == 'S');
    assert(("UEFI firmware"@ + " hash missing"@)[0] == 'U');
    assert(("Shim"@ + " hash missing"@)[0] == 'S');
    assert(("Bootloader"@ + " hash missing"@)[0] == 'B');
    assert(("Kernel"@ + " hash missing"@)[0] == 'K');
    assert(("Initramfs"@ + " hash missing"@)[0] == 'I');
    assert("UEFI firmware"@ + " hash missing"@ =~= "UEFI firmware hash missing"@);
    assert("Shim"@ + " hash missing"@ =~= "Shim hash missing"@);
    assert("Bootloader"@ + " hash missing"@ =~= "Bootloader hash missing"@);
    assert("Kernel"@ + " hash missing"@ =~= "Kernel hash missing"@);
    assert("Initramfs"@ + " hash missing"@ =~= "Initramfs hash missing"@);
}

/// Recording a hash under one of the five component names sets that
/// component's hash to the new value, whatever it held before, and leaves
/// every other field as it was; any other name changes nothing.
pub proof fn lemma_with_hash_meaning(c: SecureBootChain, component: Seq<char>, hash: String)
    ensures
        with_hash(c, component, hash).enabled == c.enabled,
        with_hash(c, component, hash).uefi_firmware == if component == "uefi"@ {
            Some(hash)
        } else {
            c.uefi_firmware
        },
        with_hash(c, component, hash).shim_hash == if component == "shim"@ {
            Some(hash)
        } else {
            c.shim_hash
        },
        with_hash(c, component, hash).bootloader_hash == if component == "bootloader"@ {
            Some(hash)
        } else {
            c.bootloader_hash
        },
        with_hash(c, component, hash).kernel_hash == if component == "kernel"@ {
            Some(hash)
        } else {
            c.kernel_hash
        },
        with_hash(c, component, hash).initramfs_hash == if component == "initramfs"@ {
            Some(hash)
        } else {
            c.initramfs_hash
        },
{
    lemma_literals_distinct();
}

/// Recording a hash under each of the five component names completes the
/// chain: an enabled chain then verifies, whatever it held before.
pub proof fn lemma_all_hashes_verify(
    c: SecureBootChain,
    uefi: String,
    shim: String,
    bootloader: String,
    kernel: String,
    initramfs: String,
)
    requires
        c.enabled,
    ensures
        chain_verified(
            with_hash(
                with_hash(
                    with_hash(with_hash(with_hash(c, "uefi"@, uefi), "shim"@, shim), "bootloader"@, bootloader),
                    "kernel"@,
                    kernel,
                ),
                "initramfs"@,
                initramfs,
            ),
        ),
{
    reveal_strlit("uefi");
    reveal_strlit("shim");
    reveal_strlit("bootloader");
    reveal_strlit("kernel");
    reveal_strlit("initramfs");
    assert("uefi"@[0] == 'u');
    assert("shim"@[0] == 's');
    assert("bootloader"@[0] == 'b');
    assert("kernel"@[0] == 'k');
    assert("initramfs"@[0] == 'i');
    assert("uefi"@ != "shim"@);
    assert("uefi"@ != "bootloader"@);
    assert("uefi"@ != "kernel"@);
    assert("uefi"@ != "initramfs"@);
    assert("shim"@ != "bootloader"@);
    assert("shim"@ != "kernel"@);
    assert("shim"@ != "initramfs"@);
    assert("bootloader"@ != "kernel"@);
    assert("bootloader"@ != "initramfs"@);
    assert("kernel"@ != "initramfs"@);
}

/// Recording a hash never changes whether secure boot is on, and never
/// removes a hash already recorded.
pub proof fn lemma_set_hash_keeps(c: SecureBootChain, component: Seq<char>, hash: String)
    ensures
        with_hash(c, component, hash).enabled == c.enabled,
        c.uefi_firmware is Some ==> with_hash(c, component, hash).uefi_firmware is Some,
        c.shim_hash is Some ==> with_hash(c, component, hash).shim_hash is Some,
        c.bootloader_hash is Some ==> with_hash(c, component, hash).bootloader_hash is Some,
        c.kernel_hash is Some ==> with_hash(c, component, hash).kernel_hash is Some,
        c.initramfs_hash is Some ==> with_hash(c, component, hash).initramfs_hash is Some,
        chain_verified(c) ==> chain_verified(with_hash(c, component, hash)),
{
}

} // verus!
