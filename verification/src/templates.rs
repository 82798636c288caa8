//! The built-in template registry: an immutable mapping from device-profile
//! key to full script text, compiled into the program, so that a default
//! flash needs no caller-supplied script path.

use vstd::prelude::*;
use vstd::string::*;

use crate::script::{noop_stripped, Script};
use crate::text::{lines_of, split_lines, starts_with_hash, str_eq, trim_line, trimmed};

verus! {

/// The script a built-in template loads to: built-in templates are laid out
/// with leading indentation for readability, so each line is trimmed before
/// the comment check.
pub open spec fn script_of_template(text: Seq<char>) -> Seq<Seq<char>> {
    lines_of(text).map_values(|l: Seq<char>| noop_stripped(trimmed(l)))
}

/// The profile key of the one built-in provisioning script.
pub const COMET_PROFILE: &'static str = "mecha-comet-gen1-r5";

/// The built-in provisioning script for that profile: serial download of the
/// bootloader, fastboot staging of kernel, device tree and initramfs, then
/// partitioning and rootfs extraction in the post-boot shell.
pub const COMET_TEMPLATE: &'static str = r#" SDP: boot -f _flash.bin -scanlimited 0x800000
            SDPV: delay 1000
            SDPV: write -f _flash.bin -skipspl -scanterm -scanlimited 0x800000
            SDPV: jump -scanlimited 0x800000
            FB: ucmd setenv fastboot_dev mmc
            FB: ucmd setenv mmcdev ${emmc_dev}
            FB: ucmd mmc dev ${emmc_dev}
            FB: flash -scanterm -scanlimited 0x800000 bootloader _flash.bin
            FB: ucmd if env exists emmc_ack; then ; else setenv emmc_ack 0; fi;
            FB: ucmd mmc partconf ${emmc_dev} ${emmc_ack} 1 0
            FB: ucmd setenv fastboot_buffer ${loadaddr}
            FB: download -f Image
            FB: ucmd setenv fastboot_buffer ${fdt_addr}
            FB: download -f imx8mm-mecha-comet-m-gen1.dtb
            FB: ucmd setenv fdtfile imx8mm-mecha-comet-m-gen1.dtb
            FB: ucmd printenv fdtfile
            FB: ucmd setenv fastboot_buffer ${initrd_addr}
            FB: download -f mecha-image-mfgtool-initramfs-mecha-comet-m-gen1-20240702102938.rootfs.cpio.gz.u-boot
            FB: ucmd setenv mfgtool_args ${mfgtool_args} mfg_mmcdev=${emmc_dev}
            FB: ucmd run mfgtool_args
            FB: ucmd setenv bootargs root=/dev/ram0 rdinit=/linuxrc rw
            FB: ucmd printenv fdtfile
            FB: acmd booti ${loadaddr} ${initrd_addr} ${fdt_addr}
            FBK: ucmd sleep 3
            FBK: ucmd cmdline=`cat /proc/cmdline`;cmdline=${cmdline#*mfg_mmcdev=};cmds=($cmdline);echo ${cmds[0]}>/tmp/mmcdev
            FBK: ucmd sleep 1
            FBK: ucmd mmc=`cat /tmp/mmcdev`; while [ ! -e /dev/mmcblk2 ]; do sleep 1; echo "wait for /dev/mmcblk2 appear"; done;
            FBK: ucmd sleep 1
            FBK: ucmd parted /dev/mmcblk2 --script mklabel msdos
            FBK: ucmd lsblk
            FBK: ucmd parted /dev/mmcblk2 -- mkpart primary FAT16 10MB 195MB
            FBK: ucmd mkfs.vfat /dev/mmcblk2p1
            FBK: ucmd parted /dev/mmcblk2 -- mkpart primary ext4 205MB 10000MB
            FBK: ucmd mkfs.ext4 /dev/mmcblk2p2
            FBK: ucmd parted /dev/mmcblk2 -- mkpart primary ext4 10005MB 29000MB
            FBK: ucmd mkfs.ext4 /dev/mmcblk2p3
            FBK: ucmd mmc=`cat /tmp/mmcdev`; mkdir -p /mnt
            FBK: ucmd mmc=`cat /tmp/mmcdev`; mount -t ext4 /dev/mmcblk2p2 /mnt
            FBK: ucmd mmc=`cat /tmp/mmcdev`; mkdir -p /mnt/boot
            FBK: ucmd mmc=`cat /tmp/mmcdev`; mount -t vfat /dev/mmcblk2p1 /mnt/boot
            FBK: ucmd mmc=`cat /tmp/mmcdev`; mkdir -p /mnt/home
            FBK: ucmd mmc=`cat /tmp/mmcdev`; mount -t ext4 /dev/mmcblk2p3 /mnt/home
            FBK: acmd EXTRACT_UNSAFE_SYMLINKS=1 tar -z -x -C /mnt
            FBK: ucp _image t:- /mnt
            FBK: ucmd sleep 45
            FBK: ucmd sync
            FBK: DONE"#;

impl Script {
    /// Builds a script from a built-in template: each physical line is
    /// trimmed, then comment lines are mapped to empty no-op lines.
    pub fn from_template(text: &str) -> (s: Script)
        ensures
            s@ == script_of_template(text@),
    {
        let lines = split_lines(text);
        let mut commands: Vec<String> = Vec::new();
        let n = lines.len();
        let mut i: usize = 0;
        proof {
            assert(commands.deep_view() =~= script_of_template(text@).take(0));
        }
        while i < n
            invariant
                n == lines.len(),
                i <= n,
                lines.deep_view() == lines_of(text@),
                commands.deep_view() == script_of_template(text@).take(i as int),
            decreases n - i,
        {
            let li = trim_line(lines[i].as_str());
            let cmd = if starts_with_hash(li.as_str()) {
                String::new()
            } else {
                li
            };
            let ghost prev = commands.deep_view();
            let ghost target = script_of_template(text@);
            proof {
                assert(lines.deep_view()[i as int] == lines@[i as int]@);
                assert(target[i as int] == noop_stripped(trimmed(lines_of(text@)[i as int])));
                assert(cmd@ == target[i as int]);
            }
            commands.push(cmd);
            i += 1;
            proof {
                assert(commands.deep_view() =~= prev.push(target[i - 1]));
                assert(prev.push(target[i - 1]) =~= target.take(i as int));
            }
        }
        proof {
            assert(script_of_template(text@).take(n as int) =~= script_of_template(text@));
        }
        Script { commands }
    }

    /// The default provisioning script: the built-in template of the one
    /// registered device profile.
    pub fn default() -> (s: Script)
        ensures
            s@ == script_of_template(COMET_TEMPLATE@),
    {
        Script::from_template(COMET_TEMPLATE)
    }
}

/// Looks a profile key up in the built-in template registry. The lookup is
/// total for the registry's known keys: every registered profile yields its
/// script, every other key yields nothing.
pub fn load_builtin(profile_key: &str) -> (r: Option<Script>)
    ensures
        profile_key@ == COMET_PROFILE@ ==> r is Some && r->0@ == script_of_template(
            COMET_TEMPLATE@,
        ),
        profile_key@ != COMET_PROFILE@ ==> r is None,
{
    if str_eq(profile_key, COMET_PROFILE) {
        Some(Script::default())
    } else {
        None
    }
}

} // verus!
