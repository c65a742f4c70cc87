use vstd::prelude::*;

verus! {

/// What can go wrong when handing distributions to the propagation state or
/// asking for acyclic propagation.
#[derive(Debug, Clone)]
pub enum BPError {
    /// A multi distribution where a single one is expected, or the reverse:
    /// (kind given, kind expected).
    WrongDistributionKind(&'static str, &'static str),
    /// (classes given, classes expected).
    WrongDistributionNc(usize, usize),
    /// (traces given, traces expected).
    WrongDistributionNmulti(usize, u32),
    /// A layout that is not contiguous and row-major: (shape, strides).
    DistributionLayout(Vec<usize>, Vec<isize>),
    /// Acyclic propagation asked on a cyclic graph.
    NotAcyclic,
}

/// The shape of a distribution: one row per trace when `multi`, else a
/// single row; `nc` classes per row.
#[derive(Clone, Copy, Debug, PartialEq, Eq, Structural)]
pub struct DistrShape {
    pub multi: bool,
    pub rows: usize,
    pub nc: usize,
}

pub open spec fn kind_name(multi: bool) -> &'static str {
    if multi {
        "multi"
    } else {
        "single"
    }
}

/// The name of a distribution kind, as error messages give it.
pub fn distr_kind_name(multi: bool) -> (r: &'static str)
    ensures
        r == kind_name(multi),
{
    if multi {
        "multi"
    } else {
        "single"
    }
}

/// The error that `check_distribution` reports for a distribution of shape
/// `d` where a distribution of kind `multi`, with `nc` classes and `nmulti`
/// traces, is expected; `None` when it fits.
pub open spec fn distribution_error(d: DistrShape, multi: bool, nc: usize, nmulti: u32) -> Option<BPError> {
    if d.multi != multi {
        Some(BPError::WrongDistributionKind(kind_name(d.multi), kind_name(multi)))
    } else if d.nc != nc {
        Some(BPError::WrongDistributionNc(d.nc, nc))
    } else if d.multi && nmulti as usize != d.rows {
        Some(BPError::WrongDistributionNmulti(d.rows, nmulti))
    } else {
        None
    }
}

/// Checks that a distribution of shape `d` can stand where one of kind
/// `multi` over `nc` classes is expected, with `nmulti` rows when multi.
pub fn check_distribution(d: DistrShape, multi: bool, nc: usize, nmulti: u32) -> (r: Result<(), BPError>)
    ensures
        r is Ok <==> distribution_error(d, multi, nc, nmulti) is None,
        r is Err ==> Some(r->Err_0) == distribution_error(d, multi, nc, nmulti),
{
    if d.multi != multi {
        Err(BPError::WrongDistributionKind(distr_kind_name(d.multi), distr_kind_name(multi)))
    } else if d.nc != nc {
        Err(BPError::WrongDistributionNc(d.nc, nc))
    } else if d.multi && nmulti as usize != d.rows {
        Err(BPError::WrongDistributionNmulti(d.rows, nmulti))
    } else {
        Ok(())
    }
}

} // verus!
