//! The labels for todo items that the user did not name.

use vstd::prelude::*;
use vstd::string::*;

verus! {

/// The labels that a todo without a name can get.
pub open spec fn messages() -> Seq<Seq<char>> {
    seq![
        "Lorem ipsum dolor sit amet"@,
        "consectetur adipiscing elit"@,
        "Proin vel eros dolor"@,
        "Cras luctus vehicula ex"@,
        "Proin vel eros dolor"@,
        "at dapibus massa viverra id"@,
        "Vestibulum nec tempor lacus"@,
        "eget lobortis ligula"@,
        "Sed vel gravida neque"@,
        "ac sollicitudin purus"@,
        "Aenean aliquet odio quis nulla varius"@,
        "Phasellus vitae nibh leo"@,
        "Maecenas lobortis porttitor consectetur"@,
        "Sed congue, ex a blandit congue"@,
        "erat erat ullamcorper orci"@,
        "vitae euismod eros lacus ut eros"@,
        "Ut molestie metus leo"@,
        "eget posuere tellus maximus a"@,
        "Nulla porttitor faucibus ullamcorper"@,
        "Phasellus feugiat felis at odio"@,
        "consectetur lacinia. Nullam fermentum"@,
        "malesuada consequat"@,
    ]
}

/// `text` is one of the messages.
pub open spec fn is_message(text: Seq<char>) -> bool {
    messages().contains(text)
}

/// The messages, in the order of `messages`.
pub fn message_pool() -> (pool: Vec<&'static str>)
    ensures
        pool@.len() == messages().len(),
        forall|i: int| 0 <= i < pool@.len() ==> (#[trigger] pool@[i])@ == messages()[i],
{
    let pool = vec![
        "Lorem ipsum dolor sit amet",
        "consectetur adipiscing elit",
        "Proin vel eros dolor",
        "Cras luctus vehicula ex",
        "Proin vel eros dolor",
        "at dapibus massa viverra id",
        "Vestibulum nec tempor lacus",
        "eget lobortis ligula",
        "Sed vel gravida neque",
        "ac sollicitudin purus",
        "Aenean aliquet odio quis nulla varius",
        "Phasellus vitae nibh leo",
        "Maecenas lobortis porttitor consectetur",
        "Sed congue, ex a blandit congue",
        "erat erat ullamcorper orci",
        "vitae euismod eros lacus ut eros",
        "Ut molestie metus leo",
        "eget posuere tellus maximus a",
        "Nulla porttitor faucibus ullamcorper",
        "Phasellus feugiat felis at odio",
        "consectetur lacinia. Nullam fermentum",
        "malesuada consequat",
    ];
    pool
}

/// The generator of random numbers of this thread, `rand::rngs::ThreadRng`.
/// Nothing is known of the numbers it gives.
#[verifier::external_type_specification]
#[verifier::external_body]
pub struct ExThreadRng(rand::rngs::ThreadRng);

/// `rand::thread_rng` hands out the generator of the calling thread. Nothing
/// is claimed of it. It panics where the operating system has no random
/// numbers to seed it with.
pub assume_specification[ rand::thread_rng ]() -> (rng: rand::rngs::ThreadRng);

/// `rand::seq::SliceRandom::choose` on a slice: it gives one element of the
/// slice, and nothing only where the slice is empty. Which element is up to
/// the generator.
#[verifier::external_body]
fn choose_message(pool: &Vec<&'static str>, rng: &mut rand::rngs::ThreadRng) -> (picked: Option<
    &'static str,
>)
    ensures
        pool@.len() == 0 ==> picked is None,
        pool@.len() > 0 ==> picked is Some && pool@.contains(picked.unwrap()),
{
    rand::seq::SliceRandom::choose(pool.as_slice(), rng).copied()
}

/// One of the messages, picked at random.
pub fn pick_message() -> (message: String)
    ensures
        is_message(message@),
{
    let msgs = message_pool();
    let mut rng = rand::thread_rng();
    let picked = choose_message(&msgs, &mut rng);
    let message = picked.unwrap();
    proof {
        let i = choose|i: int| 0 <= i < msgs@.len() && msgs@[i] == message;
        assert(messages()[i] == message@);
    }
    String::from_str(message)
}

} // verus!
