//! What the library reads of the binary under analysis: its functions, the targets of their
//! call sites and the functions next to them.
use crate::signature::Symbol;
use vstd::prelude::*;

verus! {

/// Identifies a function of the binary under analysis.
#[derive(Debug, PartialEq, Eq, Hash, Structural)]
pub struct FunctionID(pub u64);

impl Clone for FunctionID {
    fn clone(&self) -> (r: Self)
        ensures
            r == *self,
    {
        FunctionID(self.0)
    }
}

impl Copy for FunctionID {

}

/// A function of the binary under analysis: its identity, its start, the lowest and highest
/// addresses it covers and its symbol.
#[derive(Debug, PartialEq, Eq)]
pub struct AnalysisFunction {
    pub id: FunctionID,
    pub start: u64,
    pub lowest_address: u64,
    pub highest_address: u64,
    pub symbol: Symbol,
}

impl AnalysisFunction {
    /// The function covers the addresses from `lowest_address` up to `highest_address`.
    pub open spec fn well_formed(self) -> bool {
        self.lowest_address <= self.highest_address
    }

    /// The length of the function, `highest_address - lowest_address`.
    pub open spec fn spec_len(self) -> u64 {
        (self.highest_address - self.lowest_address) as u64
    }

    /// The length of the function in bytes.
    pub fn len(&self) -> (r: u64)
        requires
            self.well_formed(),
        ensures
            r == self.spec_len(),
    {
        self.highest_address - self.lowest_address
    }
}

/// What one code reference from a call site leads to.
#[derive(Debug, PartialEq, Eq)]
pub enum CallSiteTarget {
    /// A function starts at the referenced address.
    Function(AnalysisFunction),
    /// No function starts there, but a symbol names the address.
    Symbol(Symbol),
    /// Neither a function nor a symbol is found at the address.
    Unresolved,
}

/// A call site of a function: its address and what each code reference from it leads to.
#[derive(Debug, PartialEq, Eq)]
pub struct CallSite {
    pub address: u64,
    pub targets: Vec<CallSiteTarget>,
}

/// The functions that start at one address near a function.
#[derive(Debug, PartialEq, Eq)]
pub struct AdjacentFunctions {
    pub start: u64,
    pub functions: Vec<AnalysisFunction>,
}

/// What surrounds a function: its call sites, and the functions at the two function starts
/// before it and the two after it, in that order.
#[derive(Debug, PartialEq, Eq)]
pub struct FunctionSurroundings {
    pub call_sites: Vec<CallSite>,
    pub adjacent: Vec<AdjacentFunctions>,
}

/// Every function next to the function covers a valid range of addresses.
pub open spec fn adjacent_well_formed(adjacent: Seq<AdjacentFunctions>) -> bool {
    forall|i: int, j: int|
        0 <= i < adjacent.len() && 0 <= j < adjacent[i].functions@.len()
            ==> (#[trigger] adjacent[i].functions@[j]).well_formed()
}

/// The offset of every function start next to the function, taken from `function_start`,
/// fits an `i64`.
pub open spec fn adjacent_offsets_fit(adjacent: Seq<AdjacentFunctions>, function_start: u64) -> bool {
    forall|i: int|
        0 <= i < adjacent.len() ==> i64::MIN <= (#[trigger] adjacent[i].start as i64) - (
        function_start as i64) <= i64::MAX
}

} // verus!
