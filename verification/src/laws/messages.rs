//! Laws of messages: where they begin and end in what comes in, and what of
//! them is handed on.

use vstd::prelude::*;

use crate::fsm_server::ProtocolOp;
use crate::ldap_message::{
    added_attributes, answered_as, frame_at, framed, head_of, kind_of, modification_of, number_of,
    written_names, Frame, LdapRequestView, ModificationKind, RequestBodyView, SentAttributeView,
    SentChangeView,
};
use crate::response::{FsmResponseKind, ResponseOp};
use crate::string_map;
use crate::text;

verus! {

/// A message of less than 128 bytes stands behind the mark of a sequence and
/// its length in one byte, and what follows it is the next message.
pub proof fn short_messages_are_found(content: Seq<u8>, rest: Seq<u8>)
    requires
        content.len() < 128,
        rest.len() + content.len() + 2 <= usize::MAX,
    ensures
        ({
            let message = seq![0x30u8, content.len() as u8] + content;
            &&& frame_at(message + rest) == Frame::Whole((2 + content.len()) as usize)
            &&& framed(rest) matches Ok(cut) ==> framed(message + rest) == Ok::<
                (Seq<Seq<u8>>, Seq<u8>),
                (),
            >((seq![message] + cut.0, cut.1))
            &&& framed(rest) is Err ==> framed(message + rest) is Err
        }),
{
    let message = seq![0x30u8, content.len() as u8] + content;
    let all = message + rest;
    assert(all[0] == 0x30);
    assert(all[1] == content.len());
    assert(all.take(message.len() as int) =~= message);
    assert(all.skip(message.len() as int) =~= rest);
}

/// A longer message has the number of the bytes of its length before them, one
/// to four, the highest first.
pub proof fn long_messages_are_found(length: Seq<u8>, content: Seq<u8>, rest: Seq<u8>)
    requires
        1 <= length.len() <= 4,
        number_of(length) == content.len(),
        rest.len() + content.len() + length.len() + 2 <= usize::MAX,
    ensures
        ({
            let message = seq![0x30u8, (0x80 + length.len()) as u8] + length + content;
            &&& frame_at(message + rest) == Frame::Whole(
                (2 + length.len() + content.len()) as usize,
            )
            &&& framed(rest) matches Ok(cut) ==> framed(message + rest) == Ok::<
                (Seq<Seq<u8>>, Seq<u8>),
                (),
            >((seq![message] + cut.0, cut.1))
        }),
{
    let message = seq![0x30u8, (0x80 + length.len()) as u8] + length + content;
    let all = message + rest;
    assert(all[0] == 0x30);
    assert(all[1] == 0x80 + length.len());
    assert(all.subrange(2, 2 + length.len() as int) =~= length);
    assert(all.take(message.len() as int) =~= message);
    assert(all.skip(message.len() as int) =~= rest);
}

/// What does not begin with the mark of a sequence, or has its length written
/// in no bytes or in more than four, is no message; a message of which bytes
/// are missing is waited for.
pub proof fn other_bytes_are_no_messages(bytes: Seq<u8>)
    ensures
        bytes.len() > 0 && bytes[0] != 0x30 ==> frame_at(bytes) == Frame::Malformed,
        bytes.len() > 1 && (bytes[1] == 0x80 || bytes[1] > 0x84) ==> frame_at(bytes)
            == Frame::Malformed,
        bytes.len() == 0 ==> frame_at(bytes) == Frame::Incomplete,
        bytes.len() == 1 && bytes[0] == 0x30 ==> frame_at(bytes) == Frame::Incomplete,
        bytes.len() > 1 && bytes[0] == 0x30 && bytes[1] < 0x80 && bytes.len() < 2 + bytes[1]
            ==> frame_at(bytes) == Frame::Incomplete,
        frame_at(bytes) == Frame::Malformed ==> framed(bytes) is Err,
{
}

/// One more byte of a length makes it 256 times as great, and adds the byte.
pub proof fn lengths_are_numbers(bytes: Seq<u8>, b: u8)
    ensures
        number_of(bytes.push(b)) == 256 * number_of(bytes) + b,
        number_of(Seq::<u8>::empty()) == 0,
{
    assert(bytes.push(b).drop_last() =~= bytes);
}

/// A reply goes to the request that it answers, in the form that belongs to
/// it; a request to leave, to give up, or of an unknown kind has none.
pub proof fn replies_go_to_their_requests(request: LdapRequestView)
    ensures
        head_of(request).message_id == request.message_id,
        head_of(request).kind == (match request.op {
            RequestBodyView::Bind(_) => FsmResponseKind::Bind,
            RequestBodyView::Search(_) => FsmResponseKind::Result(ResponseOp::SearchDone),
            RequestBodyView::Modify { .. } => FsmResponseKind::Result(ResponseOp::Modify),
            RequestBodyView::Add { .. } => FsmResponseKind::Result(ResponseOp::Add),
            RequestBodyView::Delete(_) => FsmResponseKind::Result(ResponseOp::Delete),
            RequestBodyView::ModDn(_) => FsmResponseKind::Result(ResponseOp::ModifyDn),
            RequestBodyView::Compare(_) => FsmResponseKind::Result(ResponseOp::Compare),
            RequestBodyView::Extended { .. } => FsmResponseKind::Result(ResponseOp::Extended),
            _ => FsmResponseKind::Silent,
        }),
{
}

/// No two kinds of requests are taken for the same, and no two that are
/// answered are answered alike.
pub proof fn kinds_are_told_apart(a: ProtocolOp, b: ProtocolOp)
    ensures
        answered_as(a) == answered_as(b) ==> a == b || (answered_as(a) == FsmResponseKind::Silent
            && answered_as(b) == FsmResponseKind::Silent),
        answered_as(a) == FsmResponseKind::Silent <==> a == ProtocolOp::Unbind || a
            == ProtocolOp::Abandon || a == ProtocolOp::Other,
{
}

/// A request is of the kind of its body.
pub proof fn requests_have_their_kind(op: RequestBodyView)
    ensures
        kind_of(op) == ProtocolOp::Bind <==> op is Bind,
        kind_of(op) == ProtocolOp::Unbind <==> op is Unbind,
        kind_of(op) == ProtocolOp::Search <==> op is Search,
        kind_of(op) == ProtocolOp::Modify <==> op is Modify,
        kind_of(op) == ProtocolOp::Add <==> op is Add,
        kind_of(op) == ProtocolOp::Delete <==> op is Delete,
        kind_of(op) == ProtocolOp::ModDn <==> op is ModDn,
        kind_of(op) == ProtocolOp::Compare <==> op is Compare,
        kind_of(op) == ProtocolOp::Abandon <==> op is Abandon,
        kind_of(op) == ProtocolOp::Extended <==> op is Extended,
        kind_of(op) == ProtocolOp::Other <==> op is Other,
{
}

/// The names that a request writes are those of all its attributes or changes,
/// in their order.
pub proof fn all_written_names_are_told(op: RequestBodyView, i: int)
    ensures
        op matches RequestBodyView::Modify { changes, .. } ==> written_names(op).len()
            == changes.len() && (0 <= i < changes.len() ==> written_names(op)[i]
            == changes[i].attribute.name),
        op matches RequestBodyView::Add { attributes, .. } ==> written_names(op).len()
            == attributes.len() && (0 <= i < attributes.len() ==> written_names(op)[i]
            == attributes[i].name),
        !(op is Modify) && !(op is Add) ==> written_names(op).len() == 0,
{
}

/// A change adds, deletes or replaces as its number says, the values that were
/// sent with it, of the attribute that it names.
pub proof fn changes_are_handed_on(c: SentChangeView, i: int)
    ensures
        modification_of(c).attribute == c.attribute.name,
        modification_of(c).kind == ModificationKind::Add <==> c.operation == 0,
        modification_of(c).kind == ModificationKind::Delete <==> c.operation == 1,
        c.operation == 2 ==> modification_of(c).kind == ModificationKind::Replace,
        modification_of(c).values.len() == c.attribute.values.len(),
        0 <= i < c.attribute.values.len() ==> modification_of(c).values[i] == text::utf8_lossy(
            c.attribute.values[i],
        ),
{
}

/// The values that were sent under a name, without regard to case, one after
/// the other.
pub open spec fn sent_under(sent: Seq<SentAttributeView>, name: Seq<char>) -> Seq<Seq<char>> {
    sent.filter(|a: SentAttributeView| text::lower(a.name) == name).map_values(
        |a: SentAttributeView| a.values.map_values(|v: Seq<u8>| text::utf8_lossy(v)),
    ).flatten_alt()
}

/// An added entry has every value that was sent for it, under the lower case
/// of its name, in the order in which they came, and nothing else.
pub proof fn added_entries_have_what_was_sent(sent: Seq<SentAttributeView>, name: Seq<char>)
    ensures
        string_map::lookup(added_attributes(sent), name) is Some <==> exists|i: int|
            0 <= i < sent.len() && text::lower((#[trigger] sent[i]).name) == name,
        string_map::lookup(added_attributes(sent), name) matches Some(values) ==> values
            == sent_under(sent, name),
    decreases sent.len(),
{
    reveal(Seq::filter);
    let named = |a: SentAttributeView| text::lower(a.name) == name;
    let read = |a: SentAttributeView| a.values.map_values(|v: Seq<u8>| text::utf8_lossy(v));
    if sent.len() > 0 {
        let front = sent.drop_last();
        let last = sent.last();
        let n = sent.len() - 1;
        added_entries_have_what_was_sent(front, name);
        let before = added_attributes(front);
        let key = text::lower(last.name);
        let values = crate::ldap_message::value_texts(last.values);
        let put = match string_map::lookup(before, key) {
            Some(earlier) => earlier + values,
            None => values,
        };
        string_map::lookup_put(before, key, put, name);
        assert(text::lower(sent[n].name) == key);
        if exists|i: int| 0 <= i < front.len() && text::lower((#[trigger] front[i]).name) == name {
            let i = choose|i: int|
                0 <= i < front.len() && text::lower((#[trigger] front[i]).name) == name;
            assert(sent[i] == front[i]);
        }
        if exists|i: int| 0 <= i < sent.len() && text::lower((#[trigger] sent[i]).name) == name {
            let i = choose|i: int|
                0 <= i < sent.len() && text::lower((#[trigger] sent[i]).name) == name;
            if i < n {
                assert(front[i] == sent[i]);
            }
        }
        let lists = sent.filter(named).map_values(read);
        let earlier = front.filter(named).map_values(read);
        if key == name {
            assert(lists =~= earlier.push(read(last)));
            assert(lists.drop_last() =~= earlier);
            assert(read(last) =~= values);
            assert(sent_under(sent, name) == sent_under(front, name) + values);
            if string_map::lookup(before, name) is None {
                nothing_sent(front, name);
                assert(sent_under(front, name) + values =~= values);
            }
        } else {
            assert(lists =~= earlier);
        }
    }
}

proof fn nothing_sent(sent: Seq<SentAttributeView>, name: Seq<char>)
    requires
        forall|i: int| 0 <= i < sent.len() ==> text::lower((#[trigger] sent[i]).name) != name,
    ensures
        sent_under(sent, name) == Seq::<Seq<char>>::empty(),
    decreases sent.len(),
{
    reveal(Seq::filter);
    let named = |a: SentAttributeView| text::lower(a.name) == name;
    let read = |a: SentAttributeView| a.values.map_values(|v: Seq<u8>| text::utf8_lossy(v));
    if sent.len() > 0 {
        let front = sent.drop_last();
        assert forall|i: int| 0 <= i < front.len() implies text::lower((#[trigger] front[i]).name)
            != name by {
            assert(front[i] == sent[i]);
        }
        nothing_sent(front, name);
        assert(text::lower(sent[sent.len() - 1].name) != name);
        assert(sent.filter(named).map_values(read) =~= front.filter(named).map_values(read));
    } else {
        assert(sent.filter(named).map_values(read).len() == 0);
    }
}

} // verus!
