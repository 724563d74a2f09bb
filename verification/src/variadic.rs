use vstd::prelude::*;

verus! {

/// One tagged argument value for a merge call.
///
/// The merge driver reads one value per conversion: a character-sized
/// integer for character conversions, a 32-bit unsigned integer for the
/// numeric conversions, and an owned byte run for string conversions.
#[derive(Debug)]
pub enum Arg {
    Char(u8),
    Uint(u32),
    Str(Vec<u8>),
}

/// The caller-facing argument pack: the ordered argument values of one
/// call, declaration order first.
#[allow(non_camel_case_types)]
pub struct __va_list {
    pub args: Vec<Arg>,
}

impl __va_list {
    /// Turns the argument pack into a cursor positioned at its first value.
    pub fn as_accessor(va_list: __va_list) -> (r: VaList)
        ensures
            r@ == va_list.args@,
    {
        VaList { args: va_list.args }
    }
}

/// A read-only, forward-only cursor over the argument values of one merge
/// call; its view is the sequence of values not yet read.
pub struct VaList {
    args: Vec<Arg>,
}

impl View for VaList {
    type V = Seq<Arg>;

    closed spec fn view(&self) -> Seq<Arg> {
        self.args@
    }
}

impl VaList {
    /// Yields the next argument value, if one is left, and advances past it.
    pub fn va_arg(&mut self) -> (r: Option<Arg>)
        ensures
            old(self)@.len() > 0 ==> r == Some(old(self)@[0]) && final(self)@ == old(self)@.drop_first(),
            old(self)@.len() == 0 ==> r == None::<Arg> && final(self)@ == old(self)@,
    {
        if self.args.len() > 0 {
            let a = self.args.remove(0);
            proof {
                assert(self.args@ =~= old(self).args@.drop_first());
            }
            Some(a)
        } else {
            None
        }
    }
}

impl From<__va_list> for VaList {
    fn from(va_list: __va_list) -> (r: VaList) {
        VaList { args: va_list.args }
    }
}

impl vstd::std_specs::convert::FromSpecImpl<__va_list> for VaList {
    open spec fn obeys_from_spec() -> bool {
        true
    }

    closed spec fn from_spec(v: __va_list) -> VaList {
        VaList { args: v.args }
    }
}

} // verus!
