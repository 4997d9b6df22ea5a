//! Checks on the values of registered primitive types.
use vstd::prelude::*;
use vstd::utf8::is_ascii_chars;

verus! {

/// Why a value is not one of its registered type.
#[derive(Clone, Copy, Debug)]
pub struct StdCheckError {
    pub msg: &'static str,
}

/// A registered type that wraps a plainer one and admits only some of its
/// values.
pub trait StdCheck<T>: Sized {
    spec fn valid(inner: &T) -> bool;

    fn check(inner: &T) -> (r: Result<(), StdCheckError>)
        ensures
            r is Ok <==> Self::valid(inner),
    ;
}

/// A simple name: lower-case ASCII letters, digits and `-`.
#[derive(Clone, Debug, PartialEq, Eq)]
pub struct SimpleName(pub String);

/// Unix time in seconds.
#[derive(Clone, Copy, Debug, PartialEq, Eq, Structural)]
pub struct UnixTs(pub u64);

pub open spec fn simple_name_char(c: char) -> bool {
    ('0' <= c && c <= '9') || ('a' <= c && c <= 'z') || c == '-'
}

impl StdCheck<String> for SimpleName {
    open spec fn valid(inner: &String) -> bool {
        forall|i: int| 0 <= i < inner@.len() ==> simple_name_char(#[trigger] inner@[i])
    }

    fn check(inner: &String) -> (r: Result<(), StdCheckError>) {
        let s = inner.as_str();
        if !s.is_ascii() {
            proof {
                assert(!is_ascii_chars(s@));
                let i = choose|i: int| 0 <= i < s@.len() && !('\0' <= #[trigger] s@[i] <= '\u{7f}');
                assert(!simple_name_char(s@[i]));
            }
            return Err(StdCheckError { msg: "std:prim:simple-name is not ascii" });
        }
        let b = s.as_bytes();
        proof {
            vstd::string::is_ascii_spec_bytes(s);
        }
        let mut i: usize = 0;
        while i < b.len()
            invariant
                b@ == Seq::new(s@.len(), |j: int| s@[j] as u8),
                is_ascii_chars(s@),
                s@ == inner@,
                i <= b@.len(),
                forall|j: int| 0 <= j < i ==> simple_name_char(#[trigger] inner@[j]),
            decreases b@.len() - i,
        {
            let c = b[i];
            proof {
                let ch = s@[i as int];
                assert('\0' <= ch <= '\u{7f}');
                assert(ch as u32 <= 127);
                assert(c == ch as u8);
                let x: u32 = ch as u32;
                assert(c == x as u8);
                assert(c as u32 == x) by (bit_vector)
                    requires
                        c == x as u8,
                        x <= 127,
                ;
            }
            if !((48 <= c && c <= 57) || (97 <= c && c <= 122) || c == 45) {
                return Err(StdCheckError { msg: "std:prim:simple-name is not 0-9 | a-z | '-'" });
            }
            i = i + 1;
        }
        Ok(())
    }
}

impl SimpleName {
    /// The name, if `inner` is one.
    pub fn new(inner: String) -> (r: Result<SimpleName, StdCheckError>)
        ensures
            r is Ok <==> <SimpleName as StdCheck<String>>::valid(&inner),
            r matches Ok(n) ==> n.0@ == inner@,
    {
        match SimpleName::check(&inner) {
            Ok(()) => Ok(SimpleName(inner)),
            Err(e) => Err(e),
        }
    }
}

} // verus!
