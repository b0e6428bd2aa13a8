//! Calls that arrive as messages.
use vstd::prelude::*;

verus! {

/// Number of bytes in a message before the arguments.
pub const METHOD_SIGN_LEN: usize = 2;

/// `message` is long enough to name a method.
pub open spec fn is_call(message: Seq<u8>) -> bool {
    message.len() >= METHOD_SIGN_LEN
}

/// The number of the method that `message` calls: its first two bytes, the lower one first.
pub open spec fn method_of(message: Seq<u8>) -> u16
    recommends
        is_call(message),
{
    (message[1] * 256 + message[0]) as u16
}

/// The encoded arguments in `message`: what follows the number of the method.
pub open spec fn arguments_of(message: Seq<u8>) -> Seq<u8>
    recommends
        is_call(message),
{
    message.skip(METHOD_SIGN_LEN as int)
}

/// A message calls a method exactly where it has two bytes or more. The first one counts ones and
/// the second one counts 256s in the number of the method. The rest, byte for byte, are the
/// arguments.
pub proof fn law_layout_of_a_call(message: Seq<u8>)
    ensures
        is_call(message) <==> message.len() >= 2,
        is_call(message) ==> {
            &&& method_of(message) == message[0] + 256 * message[1]
            &&& arguments_of(message).len() == message.len() - 2
            &&& forall|i: int|
                0 <= i < message.len() - 2 ==> #[trigger] arguments_of(message)[i] == message[i + 2]
        },
{
}

/// The message that calls method `method_num` with the given arguments.
pub open spec fn call_message(method_num: u16, arguments: Seq<u8>) -> Seq<u8> {
    seq![(method_num % 256) as u8, (method_num / 256) as u8] + arguments
}

/// A message says exactly which method it calls with which arguments: what was put into it is
/// read from it.
pub proof fn law_call_is_read_back(method_num: u16, arguments: Seq<u8>)
    ensures
        is_call(call_message(method_num, arguments)),
        method_of(call_message(method_num, arguments)) == method_num,
        arguments_of(call_message(method_num, arguments)) == arguments,
{
    assert(arguments_of(call_message(method_num, arguments)) =~= arguments);
}

/// No two messages make the same call: every message that calls a method is the one that is made
/// from what is read from it.
pub proof fn law_message_is_its_call(message: Seq<u8>)
    requires
        is_call(message),
    ensures
        call_message(method_of(message), arguments_of(message)) == message,
{
    assert(call_message(method_of(message), arguments_of(message)) =~= message);
}

/// Reads the number of the called method from `message`.
pub fn method_num(message: &[u8]) -> (r: u16)
    requires
        is_call(message@),
    ensures
        r == method_of(message@),
{
    message[1] as u16 * 256 + message[0] as u16
}

/// Copies the encoded arguments out of `message`.
pub fn arguments(message: &[u8]) -> (r: Vec<u8>)
    requires
        is_call(message@),
    ensures
        r@ == arguments_of(message@),
{
    let mut r: Vec<u8> = Vec::new();
    let mut i: usize = METHOD_SIGN_LEN;
    while i < message.len()
        invariant
            METHOD_SIGN_LEN <= i <= message.len(),
            r@ == message@.subrange(METHOD_SIGN_LEN as int, i as int),
        decreases message.len() - i,
    {
        r.push(message[i]);
        i += 1;
        assert(r@ =~= message@.subrange(METHOD_SIGN_LEN as int, i as int));
    }
    assert(r@ =~= arguments_of(message@));
    r
}

} // verus!
