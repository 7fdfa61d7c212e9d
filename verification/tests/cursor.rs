use mmcc::cursor::ApplyRegalloc;
use mmcc::pinst::POffset;
use mmcc::solver::{Alloc, PassError};
use mmcc::types::{rsp, PReg};
use mmcc::vcode::{AMode, Offset};

/// The boundary check passes exactly when consumption matches the
/// solver's cumulative count, and fails fatally otherwise.
#[test]
fn cursor_boundary_alignment() {
    let mut ar = ApplyRegalloc::new(vec![Alloc::Reg(PReg(2))], vec![0, 1], 0, vec![0, 0]);
    assert!(ar.next_inst().is_ok());
    assert_eq!(ar.reg(), Ok(PReg(2)));
    assert!(ar.next_inst().is_ok());
    // a third boundary does not exist: consumption has diverged
    assert_eq!(ar.next_inst(), Err(PassError::Misalignment { inst: 2 }));
}

/// A misaligned count is reported at the instruction about to be lowered.
#[test]
fn cursor_boundary_misaligned() {
    let mut ar = ApplyRegalloc::new(vec![Alloc::Reg(PReg(2))], vec![1], 0, vec![0, 0]);
    assert_eq!(ar.next_inst(), Err(PassError::Misalignment { inst: 0 }));
}

/// Spill-relative addressing modes resolve through the frame layout's
/// slot map and consume no allocation.
#[test]
fn cursor_mem_spill_resolution() {
    let mut ar = ApplyRegalloc::new(vec![], vec![0], 8, vec![24, 0, 16]);
    let m = ar
        .mem(&AMode { off: Offset::Spill(2, 4), base: None, si: None })
        .expect("resolves");
    assert_eq!(m.off, POffset::Real(20));
    assert_eq!(m.base, Some(rsp()));
    assert_eq!(m.si, None);
    // the solver's own slots sit at the spill-area base
    let s = ar.spill(3);
    assert_eq!(s.off, POffset::Real(8 + 24));
}

/// A register-class request on a stack allocation is a contract
/// violation; an exhausted list is too.
#[test]
fn cursor_reg_errors() {
    let mut ar = ApplyRegalloc::new(vec![Alloc::Stack(0)], vec![0], 0, vec![0, 0]);
    assert_eq!(ar.reg(), Err(PassError::ExpectedReg));
    let mut ar2 = ApplyRegalloc::new(vec![], vec![0], 0, vec![0, 0]);
    assert_eq!(ar2.reg(), Err(PassError::AllocsExhausted));
    assert_eq!(ar2.skip(1), Err(PassError::AllocsExhausted));
}
