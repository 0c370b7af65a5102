//! Kernel preparation: runtime compilation of generated source and
//! loading of the resulting module.  These steps call the GPU driver
//! through trusted declarations; what they return depends on the machine,
//! so nothing is promised of any outcome beyond its shape.  Allocation,
//! memory transfer and the launch itself handle device buffers of floats
//! and stay outside this crate.

use vstd::prelude::*;
use vstd::string::StringSliceAdditionalSpecFns;
use vstd::utf8::encode_utf8;
use std::sync::Arc;
use cudarc::driver::{CudaContext, CudaFunction, CudaModule, DriverError};
use cudarc::nvrtc::{CompileError, Ptx};

verus! {

#[verifier::external_type_specification]
#[verifier::external_body]
pub struct ExPtx(Ptx);

#[verifier::external_type_specification]
#[verifier::external_body]
pub struct ExCompileError(CompileError);

#[verifier::external_type_specification]
#[verifier::external_body]
pub struct ExCudaContext(CudaContext);

#[verifier::external_type_specification]
#[verifier::external_body]
pub struct ExCudaModule(CudaModule);

#[verifier::external_type_specification]
#[verifier::external_body]
pub struct ExCudaFunction(CudaFunction);

#[verifier::external_type_specification]
#[verifier::external_body]
pub struct ExDriverError(DriverError);

/// What stopped a kernel from becoming callable.  Every variant is fatal
/// for the current execution.
#[derive(Clone, Copy, PartialEq, Eq, Structural, Debug)]
pub enum KernelError {
    /// The generated source did not compile to PTX.
    Compile,
    /// The driver refused device, module or function.
    Driver,
}

/// The string's UTF-8 encoding holds no NUL byte: the condition under
/// which the driver's C-string conversions cannot reject it.
pub open spec fn nul_free(s: Seq<char>) -> bool {
    !encode_utf8(s).contains(0u8)
}

/// Whether the string's bytes are free of NUL.
fn has_no_nul(s: &str) -> (r: bool)
    ensures
        r == nul_free(s@),
{
    let b = s.as_bytes();
    let n = b.len();
    let mut i: usize = 0;
    while i < n
        invariant
            i <= n,
            n == b@.len(),
            b@ == s.spec_bytes(),
            forall|k: int| 0 <= k < i as int ==> b@[k] != 0u8,
        decreases n - i,
    {
        if b[i] == 0 {
            proof {
                assert(encode_utf8(s@).contains(0u8)) by {
                    assert(s.spec_bytes()[i as int] == 0u8);
                }
            }
            return false;
        }
        i += 1;
    }
    proof {
        assert(!encode_utf8(s@).contains(0u8)) by {
            if encode_utf8(s@).contains(0u8) {
                let k = choose|k: int| 0 <= k < encode_utf8(s@).len() && encode_utf8(s@)[k] == 0u8;
                assert(b@[k] != 0u8);
            }
        }
    }
    true
}

/// Holds of the PTX values the runtime compiler produces: a compiled
/// image, which the module loader takes without any text conversion.
pub uninterp spec fn compiler_output(p: Ptx) -> bool;

/// Relies on `cudarc::nvrtc::compile_ptx`: compiles CUDA C++ source to
/// PTX via the runtime compiler and returns the error on malformed
/// source.  The conversion to a C string panics on an interior NUL byte,
/// which the precondition excludes.  Success is always a compiled image.
#[verifier::external_body]
fn compile_source(src: &str) -> (r: Result<Ptx, CompileError>)
    requires
        nul_free(src@),
    ensures
        r matches Ok(p) ==> compiler_output(p),
{
    cudarc::nvrtc::compile_ptx(src)
}

/// Relies on `CudaContext::new`: acquires the primary context of the
/// device at `ordinal`; fails when no such device is usable.
#[verifier::external_body]
fn context_new(ordinal: usize) -> (r: Result<Arc<CudaContext>, DriverError>)
{
    CudaContext::new(ordinal)
}

/// Relies on `CudaContext::load_module`: loads compiled PTX into the
/// context.  A compiler-produced image is loaded as raw data; the other
/// PTX kinds run text conversions that can panic, so they are excluded.
#[verifier::external_body]
fn context_load_module(ctx: &Arc<CudaContext>, ptx: Ptx) -> (r: Result<Arc<CudaModule>, DriverError>)
    requires
        compiler_output(ptx),
{
    ctx.load_module(ptx)
}

/// Relies on `CudaModule::load_function`: fetches a kernel by name from
/// a loaded module.  The conversion of the name to a C string panics on
/// an interior NUL byte, which the precondition excludes.
#[verifier::external_body]
fn module_load_function(module: &Arc<CudaModule>, fn_name: &str) -> (r: Result<
    CudaFunction,
    DriverError,
>)
    requires
        nul_free(fn_name@),
{
    module.load_function(fn_name)
}

/// Relies on the derived `Clone` of `CudaFunction`: a handle copy to the
/// same loaded kernel.
pub assume_specification[ <CudaFunction as Clone>::clone ](f: &CudaFunction) -> CudaFunction;

/// Acquire the device context the executor runs on.
pub fn acquire_context(ordinal: usize) -> (r: Result<Arc<CudaContext>, KernelError>)
    ensures
        r is Ok || r == Err::<Arc<CudaContext>, KernelError>(KernelError::Driver),
{
    match context_new(ordinal) {
        Ok(ctx) => Ok(ctx),
        Err(_) => Err(KernelError::Driver),
    }
}

/// Compile generated kernel source and fetch the named kernel from the
/// loaded module.  Compilation failure and driver failure are
/// distinguished; both abort the current execution.  A source with an
/// interior NUL byte is refused as a compilation failure and a kernel
/// name with one as a driver failure, before any call is made.
pub fn fetch_function(ctx: &Arc<CudaContext>, source: &String, kernel_name: &String) -> (r: Result<
    CudaFunction,
    KernelError,
>)
    ensures
        r is Err ==> (r == Err::<CudaFunction, KernelError>(KernelError::Compile) || r
            == Err::<CudaFunction, KernelError>(KernelError::Driver)),
{
    if !has_no_nul(source.as_str()) {
        return Err(KernelError::Compile);
    }
    if !has_no_nul(kernel_name.as_str()) {
        return Err(KernelError::Driver);
    }
    let ptx = match compile_source(source.as_str()) {
        Ok(p) => p,
        Err(_) => {
            return Err(KernelError::Compile);
        },
    };
    let module = match context_load_module(ctx, ptx) {
        Ok(m) => m,
        Err(_) => {
            return Err(KernelError::Driver);
        },
    };
    match module_load_function(&module, kernel_name.as_str()) {
        Ok(f) => Ok(f),
        Err(_) => Err(KernelError::Driver),
    }
}

/// A process-wide cache of compiled kernels, keyed by the generated
/// source.  Compilation is amortized: a source seen before is answered
/// from the cache; reusing the loaded module also avoids any module-name
/// collision between kernels compiled from different sources.
pub struct KernelCache {
    entries: Vec<(String, CudaFunction)>,
}

impl KernelCache {
    /// The sources the cache holds, in insertion order.
    pub closed spec fn keys(&self) -> Seq<Seq<char>> {
        Seq::new(self.entries@.len(), |i: int| self.entries@[i].0@)
    }

    /// No source is cached twice.
    pub closed spec fn wf(&self) -> bool {
        forall|i: int, j: int|
            0 <= i < j < self.keys().len() ==> self.keys()[i] != self.keys()[j]
    }

    pub fn new() -> (r: KernelCache)
        ensures
            r.wf(),
            r.keys().len() == 0,
    {
        KernelCache { entries: Vec::new() }
    }

    /// The cached kernel for this source, or compile, load and remember
    /// it.  The cache grows by at most this one source; a source seen
    /// before is answered from the cache without touching the driver.
    pub fn get_or_compile(
        &mut self,
        ctx: &Arc<CudaContext>,
        source: &String,
        kernel_name: &String,
    ) -> (r: Result<CudaFunction, KernelError>)
        requires
            old(self).wf(),
        ensures
            final(self).wf(),
            final(self).keys() == old(self).keys() || final(self).keys() == old(self).keys().push(
                source@,
            ),
            r is Err ==> final(self).keys() == old(self).keys(),
            final(self).keys() != old(self).keys() ==> !old(self).keys().contains(source@),
            old(self).keys().contains(source@) ==> r is Ok,
    {
        let n = self.entries.len();
        let mut i: usize = 0;
        while i < n
            invariant
                i <= n,
                n == self.entries@.len(),
                old(self).wf(),
                self.entries@ == old(self).entries@,
                forall|k: int| 0 <= k < i as int ==> self.entries@[k].0@ != source@,
            decreases n - i,
        {
            if self.entries[i].0.eq(source) {
                proof {
                    assert(self.keys() =~= old(self).keys());
                    assert forall|a: int, b: int|
                        0 <= a < b < self.keys().len() implies self.keys()[a]
                        != self.keys()[b] by {
                        assert(old(self).keys()[a] != old(self).keys()[b]);
                    }
                }
                return Ok(self.entries[i].1.clone());
            }
            i += 1;
        }
        proof {
            assert forall|k: int| 0 <= k < self.keys().len() implies self.keys()[k] != source@ by {
                assert(self.entries@[k].0@ != source@);
            }
            assert(!self.keys().contains(source@));
        }
        match fetch_function(ctx, source, kernel_name) {
            Ok(f) => {
                let ghost before = self.keys();
                self.entries.push((source.clone(), f.clone()));
                proof {
                    assert(self.keys() =~= before.push(source@));
                    assert forall|k: int, j: int|
                        0 <= k < j < self.keys().len() implies self.keys()[k] != self.keys()[j] by {
                        if j == self.keys().len() - 1 {
                            assert(before[k] != source@) by {
                                assert(old(self).entries@[k].0@ != source@);
                            }
                        }
                    }
                }
                Ok(f)
            },
            Err(e) => Err(e),
        }
    }
}

} // verus!
