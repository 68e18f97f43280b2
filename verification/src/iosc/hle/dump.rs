//! Loading a console's key dump into the crypto engine.

use vstd::prelude::*;
use crate::bytes::copy_range;
use crate::disc::read_array;
use crate::iosc::key_dump::BootMiiKeyDump;
use super::{entry_with_data, entry_with_misc, iosc_wf, with_entry_data, with_entry_misc, Iosc, IoscView};

verus! {

/// The engine after taking the keys of a dump (see `Iosc::load_key_dump`).
pub open spec fn load_key_dump_spec(v: IoscView, d: BootMiiKeyDump) -> IoscView {
    let e = v.entries;
    IoscView {
        entries: e.update(0, entry_with_data(e[0], d.union_data@.subrange(0, 0x1e))).update(
            1,
            entry_with_misc(e[1], d.ng_id),
        ).update(2, entry_with_data(e[2], d.nand_key@)).update(
            3,
            entry_with_data(e[3], d.union_data@.subrange(0x1c, 0x30)),
        ).update(5, entry_with_data(e[5], d.backup_key@)).update(
            7,
            entry_with_misc(e[7], d.counters[0].boot2version as u32),
        ),
        console_signature: d.ng_sig@,
        ms_id: d.ms_id,
        ca_id: d.ca_id,
        console_key_id: d.ng_key_id,
        ..v
    }
}

impl Iosc {
    /// Takes the console's keys and identifiers from a key dump: its
    /// private key, signature, ids, NAND keys, PRNG key and boot2 version.
    pub fn load_key_dump(&mut self, dump: &BootMiiKeyDump)
        requires
            iosc_wf(old(self)@),
            dump.union_data@.len() == 0x30,
            dump.ng_sig@.len() == 60,
        ensures
            final(self)@ == load_key_dump_spec(old(self)@, *dump),
            iosc_wf(final(self)@),
    {
        let ghost v0 = self@;
        let console_key = with_entry_data(self.entry_at(0), copy_range(dump.union_data.as_slice(), 0, 0x1e));
        self.set_entry(0, console_key);
        let console_id = with_entry_misc(self.entry_at(1), dump.ng_id);
        self.set_entry(1, console_id);
        let fs_key = with_entry_data(self.entry_at(2), copy_range(dump.nand_key.as_slice(), 0, dump.nand_key.len()));
        self.set_entry(2, fs_key);
        let fs_mac = with_entry_data(self.entry_at(3), copy_range(dump.union_data.as_slice(), 0x1c, 0x14));
        self.set_entry(3, fs_mac);
        let prng = with_entry_data(self.entry_at(5), copy_range(dump.backup_key.as_slice(), 0, dump.backup_key.len()));
        self.set_entry(5, prng);
        let boot2 = with_entry_misc(self.entry_at(7), dump.counters[0].boot2version as u32);
        self.set_entry(7, boot2);
        let signature: [u8; 60] = read_array(dump.ng_sig.as_slice(), 0);
        self.set_identity(signature, dump.ms_id, dump.ca_id, dump.ng_key_id);
        proof {
            assert(dump.nand_key@.subrange(0, dump.nand_key@.len() as int) =~= dump.nand_key@);
            assert(dump.backup_key@.subrange(0, dump.backup_key@.len() as int) =~= dump.backup_key@);
            assert(dump.ng_sig@.subrange(0, 60) =~= dump.ng_sig@);
            assert(self@.entries =~= load_key_dump_spec(v0, *dump).entries);
        }
    }
}

} // verus!
