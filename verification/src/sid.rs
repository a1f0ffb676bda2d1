//! Client-generated session-id-like tokens: twenty random ASCII capital
//! letters.

use vstd::prelude::*;

verus! {

/// Relies on `rand::thread_rng`: a handle to the thread-local generator.
#[verifier::external_body]
fn get_thread_rng() -> rand::rngs::ThreadRng {
    rand::thread_rng()
}

#[verifier::external_type_specification]
#[verifier::external_body]
pub struct ExThreadRng(rand::rngs::ThreadRng);

/// Relies on `rand::Rng::gen_range` over `lo..hi`: a uniform sample in
/// `[lo, hi)`; it panics only on an empty range, which the precondition
/// rules out.
#[verifier::external_body]
fn gen_range_u32(rng: &mut rand::rngs::ThreadRng, lo: u32, hi: u32) -> (r: u32)
    requires
        lo < hi,
    ensures
        lo <= r < hi,
{
    rand::Rng::gen_range(rng, lo..hi)
}

/// Relies on `String::from_utf8`: ASCII bytes are valid UTF-8 and decode to
/// the string of exactly those characters.
#[verifier::external_body]
fn ascii_to_string(bytes: Vec<u8>) -> (r: String)
    requires
        forall|i: int| 0 <= i < bytes@.len() ==> bytes@[i] < 128,
    ensures
        r@.len() == bytes@.len(),
        forall|i: int| 0 <= i < bytes@.len() ==> r@[i] == bytes@[i] as char,
{
    match String::from_utf8(bytes) {
        Ok(s) => s,
        Err(_) => String::new(),
    }
}

/// A random token of twenty ASCII letters drawn from `A` to `Y`.
pub struct SocketIoSid(pub String);

impl SocketIoSid {
    /// Twenty characters, each an ASCII capital in `A..=Y`.
    pub open spec fn wf(&self) -> bool {
        &&& self.0@.len() == 20
        &&& forall|i: int| 0 <= i < 20 ==> 65 <= ((#[trigger] self.0@[i]) as u32) < 90
    }

    pub fn new() -> (r: Self)
        ensures
            r.wf(),
    {
        let mut rng = get_thread_rng();
        let mut bytes: Vec<u8> = Vec::new();
        let mut i: usize = 0;
        while i < 20
            invariant
                0 <= i <= 20,
                bytes@.len() == i,
                forall|j: int| 0 <= j < i ==> 65 <= #[trigger] bytes@[j] < 90,
            decreases 20 - i,
        {
            let c = gen_range_u32(&mut rng, 65, 90);
            bytes.push(c as u8);
            i += 1;
        }
        let s = ascii_to_string(bytes);
        SocketIoSid(s)
    }

    pub fn as_str(&self) -> (r: &str)
        ensures
            r@ == self.0@,
    {
        self.0.as_str()
    }

    pub fn to_string(&self) -> (r: String)
        ensures
            r@ == self.0@,
    {
        self.0.clone()
    }

    pub fn into_string(self) -> (r: String)
        ensures
            r@ == self.0@,
    {
        self.0
    }
}

} // verus!
