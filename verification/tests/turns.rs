use overlands_agent::serve::{turn_step, TurnStep};

/// The decisions a frame makes over what is waiting, each seen as
/// (may write a record, an interface command working a control): how many
/// it answers.
fn answered(seen: &[(bool, bool)]) -> usize {
    let mut n = 0;
    for &(writes, acting) in seen {
        match turn_step(writes, acting) {
            TurnStep::Answer => n += 1,
            TurnStep::AnswerAndEnd => return n + 1,
            TurnStep::PutBack => return n,
        }
    }
    n
}

#[test]
fn every_waiting_read_is_answered_in_one_frame() {
    assert_eq!(answered(&[(false, false), (false, false)]), 2);
}

/// One frame over the requests waiting, each a name and whether it may
/// write a record, no control being worked: what it answers, in order;
/// what it leaves stays waiting, in order, for the next.
fn frame<'a>(waiting: &mut Vec<(&'a str, bool)>) -> Vec<&'a str> {
    let mut done = Vec::new();
    while !waiting.is_empty() {
        let (name, writes) = waiting[0];
        match turn_step(writes, false) {
            TurnStep::Answer => {
                done.push(name);
                waiting.remove(0);
            }
            TurnStep::AnswerAndEnd => {
                done.push(name);
                waiting.remove(0);
                break;
            }
            TurnStep::PutBack => break,
        }
    }
    done
}

/// Two edits and a status waiting: the first edit ends the first frame's
/// turn, the second edit the second's, and the status, queued behind
/// them, is answered on the third.
#[test]
fn two_edits_waiting_are_two_frames_and_two_steps() {
    assert_eq!(answered(&[(true, false), (true, false), (false, false)]), 1);
    let mut waiting = vec![("the first edit", true), ("the second edit", true), ("the status", false)];
    assert_eq!(frame(&mut waiting), ["the first edit"]);
    assert_eq!(waiting, [("the second edit", true), ("the status", false)]);
    assert_eq!(frame(&mut waiting), ["the second edit"], "the second edit ended that turn too");
    assert_eq!(waiting, [("the status", false)]);
    assert_eq!(frame(&mut waiting), ["the status"]);
    assert!(waiting.is_empty());
}

#[test]
fn an_edit_waits_while_a_control_is_worked() {
    assert_eq!(turn_step(true, true), TurnStep::PutBack);
    assert_eq!(answered(&[(false, true), (true, true), (false, false)]), 1);
    assert_eq!(turn_step(false, true), TurnStep::Answer);
}
