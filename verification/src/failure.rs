//! The first failure of a session: what ended it is reported, not what followed from that.

use vstd::prelude::*;

verus! {

/// Keeps the message if no failure is stored yet.
pub fn store_failure(failure: &mut Option<String>, message: &str)
    ensures
        *old(failure) is Some ==> *final(failure) == *old(failure),
        *old(failure) is None ==> (*final(failure) matches Some(stored) && stored@ == message@),
{
    if failure.is_none() {
        *failure = Some(message.to_owned());
    }
}

/// Takes the stored failure out.
pub fn take_failure(failure: &mut Option<String>) -> (taken: Option<String>)
    ensures
        taken == *old(failure),
        *final(failure) is None,
{
    failure.take()
}

/// Reports an error of the PipeWire audio stream. While its starter still waits, the starter gets
/// the message, once, and the session's failure is left alone. Once the stream runs, the message
/// becomes the session's failure unless there is one already. In between nobody is told.
pub fn report_stream_error(
    starter_waits: &mut bool,
    started: bool,
    failure: &mut Option<String>,
    message: &str,
) -> (told_starter: Option<String>)
    ensures
        !*final(starter_waits),
        match told_starter {
            Some(text) => *old(starter_waits) && text@ == message@,
            None => !*old(starter_waits),
        },
        *old(starter_waits) || !started || *old(failure) is Some ==> *final(failure) == *old(failure),
        !*old(starter_waits) && started && *old(failure) is None ==> (*final(failure) matches Some(
            stored,
        ) && stored@ == "PipeWire audio stream error: "@ + message@),
{
    if *starter_waits {
        *starter_waits = false;
        Some(message.to_owned())
    } else {
        if started {
            let text: String = "PipeWire audio stream error: ".to_owned().concat(message);
            store_failure(failure, text.as_str());
        }
        None
    }
}

/// The first error among some.
pub open spec fn first_error(errors: Seq<Option<String>>) -> Option<String>
    decreases errors.len(),
{
    if errors.len() == 0 {
        None
    } else {
        match errors[0] {
            Some(error) => Some(error),
            None => first_error(errors.drop_first()),
        }
    }
}

/// The first error among some is the one before which there is none.
pub proof fn lemma_the_first_error_counts(errors: Seq<Option<String>>, index: int)
    ensures
        (forall|i: int| 0 <= i < errors.len() ==> (#[trigger] errors[i]) is None) ==> first_error(
            errors,
        ) is None,
        0 <= index < errors.len() && errors[index] is Some && (forall|i: int|
            0 <= i < index ==> (#[trigger] errors[i]) is None) ==> first_error(errors)
            == errors[index],
    decreases errors.len(),
{
    if errors.len() > 0 && errors[0] is None {
        let rest = errors.drop_first();
        lemma_the_first_error_counts(rest, index - 1);
        if forall|i: int| 0 <= i < errors.len() ==> (#[trigger] errors[i]) is None {
            assert forall|i: int| 0 <= i < rest.len() implies (#[trigger] rest[i]) is None by {
                assert(rest[i] == errors[i + 1]);
            }
        }
        if 0 < index < errors.len() && forall|i: int|
            0 <= i < index ==> (#[trigger] errors[i]) is None {
            assert forall|i: int| 0 <= i < index - 1 implies (#[trigger] rest[i]) is None by {
                assert(rest[i] == errors[i + 1]);
            }
            assert(rest[index - 1] == errors[index]);
        }
    }
}

/// The first error among some: of an input that is stopped, that of the capture, of the encoder
/// and of the audio, in this order.
pub fn first_of(errors: Vec<Option<String>>) -> (error: Option<String>)
    ensures
        error == first_error(errors@),
    decreases errors@.len(),
{
    let mut errors: Vec<Option<String>> = errors;
    if errors.len() == 0 {
        return None;
    }
    let ghost all = errors@;
    let first: Option<String> = errors.remove(0);
    assert(errors@ =~= all.drop_first());
    match first {
        Some(error) => Some(error),
        None => first_of(errors),
    }
}

} // verus!
