//! The binary module assembler: combines the finished procedures into
//! one complete WebAssembly module, proved byte-for-byte equal to the
//! model's `assemble_m`.

use vstd::prelude::*;

use crate::compiler::{proc_matches, Procedure};
use crate::emit::{leb_write, uleb};
use crate::model::{
    assemble_m, codes_m, export_section, funcidxs_m, functype_m, functypes_m, import_section,
    magic_version, repeat_byte, section_m, ProcM,
};

verus! {

broadcast use vstd::std_specs::vec::group_vec_axioms;

/// Append one byte.
fn put(code: &mut Vec<u8>, b: u8)
    ensures
        final(code)@ == old(code)@ + seq![b],
{
    code.push(b);
    proof {
        assert(code@ =~= old(code)@ + seq![b]);
    }
}

/// Append a whole byte string.
fn put_all(w: &mut Vec<u8>, bytes: &Vec<u8>)
    ensures
        final(w)@ == old(w)@ + bytes@,
{
    let mut i: usize = 0;
    while i < bytes.len()
        invariant
            i <= bytes@.len(),
            w@ == old(w)@ + bytes@.subrange(0, i as int),
        decreases bytes@.len() - i,
    {
        w.push(bytes[i]);
        i = i + 1;
        proof {
            assert(w@ =~= old(w)@ + bytes@.subrange(0, i as int));
        }
    }
    proof {
        assert(bytes@.subrange(0, bytes@.len() as int) =~= bytes@);
    }
}

/// Write one section: its id byte, the length of the content, and the
/// content itself.
pub fn write_section(w: &mut Vec<u8>, section_type: u8, content: &Vec<u8>)
    ensures
        final(w)@ == old(w)@ + section_m(section_type, content@),
{
    let ghost w0 = w@;
    put(w, section_type);
    leb_write(w, content.len() as u64);
    put_all(w, content);
    proof {
        assert(w@ =~= w0 + section_m(section_type, content@));
    }
}

/// Assemble the finished procedures into one complete module.
pub(crate) fn assemble(procs: &Vec<Procedure>, Ghost(pm): Ghost<Seq<ProcM>>) -> (out: Vec<u8>)
    requires
        pm.len() == procs@.len(),
        forall|j: int| 0 <= j < pm.len() ==> proc_matches(procs@[j], #[trigger] pm[j]),
        procs@.len() + 1 <= 0xFFFFFFFFFFFFFFFF,
    ensures
        out@ == assemble_m(pm),
{
    let n = procs.len();
    let mut out: Vec<u8> = Vec::new();
    proof {
        assert(out@ =~= Seq::<u8>::empty());
    }
    // magic bytes and version
    put(&mut out, 0x00);
    put(&mut out, 0x61);
    put(&mut out, 0x73);
    put(&mut out, 0x6D);
    put(&mut out, 0x01);
    put(&mut out, 0x00);
    put(&mut out, 0x00);
    put(&mut out, 0x00);
    proof {
        assert(out@ =~= magic_version());
    }
    // type section: the print import's type, then one type per procedure
    let mut tc: Vec<u8> = Vec::new();
    proof {
        assert(tc@ =~= Seq::<u8>::empty());
    }
    leb_write(&mut tc, (n as u64) + 1);
    put(&mut tc, 0x60);
    put(&mut tc, 0x01);
    put(&mut tc, 0x7D);
    put(&mut tc, 0x00);
    let ghost tc_base = tc@;
    proof {
        assert(tc_base =~= uleb((1 + pm.len()) as nat) + seq![0x60u8, 0x01u8, 0x7Du8, 0x00u8]);
    }
    let mut i: usize = 0;
    while i < n
        invariant
            i <= n == procs@.len() == pm.len(),
            forall|j: int| 0 <= j < pm.len() ==> proc_matches(procs@[j], #[trigger] pm[j]),
            functypes_m(pm, 0) == tc@.subrange(tc_base.len() as int, tc@.len() as int)
                + functypes_m(pm, i as int),
            tc@.len() >= tc_base.len(),
            tc@.subrange(0, tc_base.len() as int) == tc_base,
        decreases n - i,
    {
        let ghost tpre = tc@;
        let p = &procs[i];
        put(&mut tc, 0x60);
        leb_write(&mut tc, p.num_param as u64);
        let mut k: usize = 0;
        while k < p.num_param
            invariant
                k <= p.num_param,
                tc@ == tpre + seq![0x60u8] + uleb(p.num_param as nat) + repeat_byte(
                    0x7Du8,
                    k as int,
                ),
            decreases p.num_param - k,
        {
            put(&mut tc, 0x7D);
            k = k + 1;
            proof {
                assert(tc@ =~= tpre + seq![0x60u8] + uleb(p.num_param as nat) + repeat_byte(
                    0x7Du8,
                    k as int,
                ));
            }
        }
        put(&mut tc, 0x00);
        i = i + 1;
        proof {
            assert(tc@ =~= tpre + functype_m(pm[i - 1]));
            assert(functypes_m(pm, i - 1) == functype_m(pm[i - 1]) + functypes_m(pm, i as int));
            assert(tc@.subrange(tc_base.len() as int, tc@.len() as int) =~= tpre.subrange(
                tc_base.len() as int,
                tpre.len() as int,
            ) + functype_m(pm[i - 1]));
            assert(functypes_m(pm, 0) =~= tc@.subrange(tc_base.len() as int, tc@.len() as int)
                + functypes_m(pm, i as int));
            assert(tc@.subrange(0, tc_base.len() as int) =~= tc_base);
        }
    }
    proof {
        assert(functypes_m(pm, n as int) =~= Seq::<u8>::empty());
        assert(tc@ =~= tc_base + functypes_m(pm, 0));
    }
    write_section(&mut out, 0x01, &tc);
    // import section: the host print function and the linear memory
    let ghost o1 = out@;
    put(&mut out, 0x02);
    put(&mut out, 0x1B);
    put(&mut out, 0x02);
    put(&mut out, 0x03);
    put(&mut out, 'e' as u8);
    put(&mut out, 'n' as u8);
    put(&mut out, 'v' as u8);
    put(&mut out, 0x05);
    put(&mut out, 'p' as u8);
    put(&mut out, 'r' as u8);
    put(&mut out, 'i' as u8);
    put(&mut out, 'n' as u8);
    put(&mut out, 't' as u8);
    put(&mut out, 0x00);
    put(&mut out, 0x00);
    put(&mut out, 0x03);
    put(&mut out, 'e' as u8);
    put(&mut out, 'n' as u8);
    put(&mut out, 'v' as u8);
    put(&mut out, 0x06);
    put(&mut out, 'm' as u8);
    put(&mut out, 'e' as u8);
    put(&mut out, 'm' as u8);
    put(&mut out, 'o' as u8);
    put(&mut out, 'r' as u8);
    put(&mut out, 'y' as u8);
    put(&mut out, 0x02);
    put(&mut out, 0x00);
    put(&mut out, 0x01);
    proof {
        assert(out@ =~= o1 + import_section());
    }
    // function section: each procedure's type index
    let mut fc: Vec<u8> = Vec::new();
    proof {
        assert(fc@ =~= Seq::<u8>::empty());
    }
    leb_write(&mut fc, n as u64);
    let ghost fc_base = fc@;
    let mut i2: usize = 0;
    while i2 < n
        invariant
            i2 <= n == procs@.len() == pm.len(),
            forall|j: int| 0 <= j < pm.len() ==> proc_matches(procs@[j], #[trigger] pm[j]),
            funcidxs_m(pm, 0) == fc@.subrange(fc_base.len() as int, fc@.len() as int)
                + funcidxs_m(pm, i2 as int),
            fc@.len() >= fc_base.len(),
            fc@.subrange(0, fc_base.len() as int) == fc_base,
        decreases n - i2,
    {
        let ghost fpre = fc@;
        leb_write(&mut fc, procs[i2].idx as u64);
        i2 = i2 + 1;
        proof {
            assert(fc@.subrange(fc_base.len() as int, fc@.len() as int) =~= fpre.subrange(
                fc_base.len() as int,
                fpre.len() as int,
            ) + uleb(pm[i2 - 1].idx as nat));
            assert(funcidxs_m(pm, 0) =~= fc@.subrange(fc_base.len() as int, fc@.len() as int)
                + funcidxs_m(pm, i2 as int));
            assert(fc@.subrange(0, fc_base.len() as int) =~= fc_base);
        }
    }
    proof {
        assert(funcidxs_m(pm, n as int) =~= Seq::<u8>::empty());
        assert(fc@ =~= fc_base + funcidxs_m(pm, 0));
    }
    write_section(&mut out, 0x03, &fc);
    // export section: the entry point as `main`
    let ghost o2 = out@;
    put(&mut out, 0x07);
    put(&mut out, 0x08);
    put(&mut out, 0x01);
    put(&mut out, 0x04);
    put(&mut out, 'm' as u8);
    put(&mut out, 'a' as u8);
    put(&mut out, 'i' as u8);
    put(&mut out, 'n' as u8);
    put(&mut out, 0x00);
    put(&mut out, 0x01);
    proof {
        assert(out@ =~= o2 + export_section());
    }
    // code section: each procedure's length-prefixed code
    let mut cc: Vec<u8> = Vec::new();
    proof {
        assert(cc@ =~= Seq::<u8>::empty());
    }
    leb_write(&mut cc, n as u64);
    let ghost cc_base = cc@;
    let mut i3: usize = 0;
    while i3 < n
        invariant
            i3 <= n == procs@.len() == pm.len(),
            forall|j: int| 0 <= j < pm.len() ==> proc_matches(procs@[j], #[trigger] pm[j]),
            codes_m(pm, 0) == cc@.subrange(cc_base.len() as int, cc@.len() as int) + codes_m(
                pm,
                i3 as int,
            ),
            cc@.len() >= cc_base.len(),
            cc@.subrange(0, cc_base.len() as int) == cc_base,
        decreases n - i3,
    {
        let ghost cpre = cc@;
        let p = &procs[i3];
        leb_write(&mut cc, p.code.len() as u64);
        put_all(&mut cc, &p.code);
        i3 = i3 + 1;
        proof {
            assert(cc@.subrange(cc_base.len() as int, cc@.len() as int) =~= cpre.subrange(
                cc_base.len() as int,
                cpre.len() as int,
            ) + uleb(pm[i3 - 1].code.len()) + pm[i3 - 1].code);
            assert(codes_m(pm, 0) =~= cc@.subrange(cc_base.len() as int, cc@.len() as int)
                + codes_m(pm, i3 as int));
            assert(cc@.subrange(0, cc_base.len() as int) =~= cc_base);
        }
    }
    proof {
        assert(codes_m(pm, n as int) =~= Seq::<u8>::empty());
        assert(cc@ =~= cc_base + codes_m(pm, 0));
    }
    write_section(&mut out, 0x0A, &cc);
    proof {
        assert(out@ =~= assemble_m(pm));
    }
    out
}

} // verus!
