//! Carrying a long argument vector through a pipe: arguments are stored
//! NUL-terminated, an argument holding a NUL is refused, and the stream may
//! not outgrow what one pipe holds. The launcher writes the finished bytes
//! into the pipe and hands the read end to the child as `--args=N`.

use vstd::prelude::*;

use crate::error::Error;
use crate::numfmt::{dec_chars, u32_to_dec};

verus! {

/// The kernel's default pipe capacity, the hard ceiling for the stream.
pub const PIPE_CAPACITY: usize = 65536;

pub open spec fn has_nul(a: Seq<u8>) -> bool {
    exists|i: int| 0 <= i < a.len() && a[i] == 0
}

/// What adding one argument does: refuse a NUL byte, refuse overgrowth,
/// else append the argument and its terminator.
pub open spec fn add_result(data: Seq<u8>, arg: Seq<u8>) -> (Result<(), Error>, Seq<u8>) {
    if has_nul(arg) {
        (Err(Error::NulArgument), data)
    } else if data.len() + arg.len() + 1 > PIPE_CAPACITY {
        (Err(Error::ArgsCapacity), data)
    } else {
        (Ok(()), data + arg + seq![0u8])
    }
}

/// Adding a list of arguments, stopping at the first refusal; what was
/// added before the refusal stays.
pub open spec fn extend_result(data: Seq<u8>, args: Seq<Seq<u8>>) -> (Result<(), Error>, Seq<u8>)
    decreases args.len(),
{
    if args.len() == 0 {
        (Ok(()), data)
    } else {
        let (r, d2) = add_result(data, args[0]);
        if r is Err {
            (r, d2)
        } else {
            extend_result(d2, args.drop_first())
        }
    }
}

/// The argument stream under construction.
#[derive(Debug)]
pub struct ArgsFdBuilder {
    pub data: Vec<u8>,
}

impl View for ArgsFdBuilder {
    type V = Seq<u8>;

    open spec fn view(&self) -> Seq<u8> {
        self.data@
    }
}

impl ArgsFdBuilder {
    pub fn new() -> (r: ArgsFdBuilder)
        ensures
            r@ == Seq::<u8>::empty(),
    {
        let r = ArgsFdBuilder { data: Vec::new() };
        proof {
            assert(r@ =~= Seq::<u8>::empty());
        }
        r
    }

    /// Appends one argument and its NUL terminator. An argument holding a
    /// NUL byte is refused; so is one that would outgrow the pipe.
    #[verifier::loop_isolation(false)]
    pub fn add(&mut self, arg: &[u8]) -> (r: Result<(), Error>)
        ensures
            (r, final(self)@) == add_result(old(self)@, arg@),
    {
        let n = arg.len();
        let mut i: usize = 0;
        while i < n
            invariant
                n == arg@.len(),
                i <= n,
                forall|j: int| 0 <= j < i ==> arg@[j] != 0,
            decreases n - i,
        {
            if arg[i] == 0 {
                return Err(Error::NulArgument);
            }
            i += 1;
        }
        if self.data.len() > PIPE_CAPACITY - 1 || n > PIPE_CAPACITY - 1 - self.data.len() {
            return Err(Error::ArgsCapacity);
        }
        let ghost before = self.data@;
        let mut k: usize = 0;
        while k < n
            invariant
                n == arg@.len(),
                k <= n,
                self.data@ == before + arg@.take(k as int),
            decreases n - k,
        {
            proof {
                assert((before + arg@.take(k as int)).push(arg@[k as int]) =~= before + arg@.take(
                    k + 1,
                ));
            }
            self.data.push(arg[k]);
            k += 1;
        }
        self.data.push(0);
        proof {
            assert(arg@.take(n as int) =~= arg@);
            assert((before + arg@).push(0u8) =~= before + arg@ + seq![0u8]);
        }
        Ok(())
    }

    /// Appends each argument in turn, stopping at the first refusal.
    #[verifier::loop_isolation(false)]
    pub fn extend(&mut self, args: &Vec<Vec<u8>>) -> (r: Result<(), Error>)
        ensures
            (r, final(self)@) == extend_result(old(self)@, args@.map_values(|a: Vec<u8>| a@)),
    {
        let ghost all = args@.map_values(|a: Vec<u8>| a@);
        let mut i: usize = 0;
        proof {
            assert(all.skip(0) =~= all);
        }
        while i < args.len()
            invariant
                all == args@.map_values(|a: Vec<u8>| a@),
                i <= args@.len(),
                extend_result(old(self)@, all) == extend_result(self@, all.skip(i as int)),
            decreases args@.len() - i,
        {
            proof {
                assert(all.skip(i as int)[0] == args@[i as int]@);
                assert(all.skip(i as int).drop_first() =~= all.skip(i + 1));
            }
            let res = self.add(args[i].as_slice());
            if let Err(e) = res {
                return Err(e);
            }
            i += 1;
        }
        proof {
            assert(all.skip(args@.len() as int) =~= Seq::<Seq<u8>>::empty());
        }
        Ok(())
    }

    /// The finished stream: what the launcher writes into the pipe.
    pub fn done(self) -> (r: Vec<u8>)
        ensures
            r@ == self@,
    {
        self.data
    }
}

/// The argument the child is given so it can find the pipe's read end.
pub fn args_fd_arg(fd: u32) -> (r: String)
    ensures
        r@ == "--args="@ + dec_chars(fd as nat),
{
    let mut s = String::new();
    s.append("--args=");
    let d = u32_to_dec(fd);
    s.append(d.as_str());
    s
}

} // verus!
