//! Laws of reading the entries with which a directory starts.

use vstd::prelude::*;
use vstd::utf8;

use crate::directory;
use crate::ldif::{
    attr_value, base64_decoded, decoded_value, drafted, grouped, initial_entry, is_remark, records,
    unfolded, LdifErrorView, Numbered,
};
use crate::string_map;
use crate::text;

verus! {

/// The password of an entry is the first value under its password attribute,
/// whoever the entry belongs to; an entry without one has an empty password.
pub proof fn an_entry_has_the_password_that_it_names(
    lines: Numbered,
    root_user_dn: Seq<char>,
    root_dn: Seq<char>,
    root_password: Seq<char>,
)
    ensures
        initial_entry(lines, root_user_dn, root_dn, root_password) matches Ok(entry)
            ==> match string_map::lookup(
            entry.attributes,
            "userpassword"@,
        ) {
            Some(values) => if values.len() > 0 {
                entry.password == utf8::encode_utf8(values[0])
            } else {
                entry.password.len() == 0
            },
            None => entry.password.len() == 0,
        },
{
}

/// The values of the lines with that name, in their order. Remarks and empty
/// lines have none.
pub open spec fn values_named(lines: Numbered, key: Seq<char>) -> Seq<Seq<char>>
    decreases lines.len(),
{
    if lines.len() == 0 {
        Seq::empty()
    } else {
        let (line_no, line) = lines[0];
        let rest = values_named(lines.drop_first(), key);
        if is_remark(line) {
            rest
        } else {
            match attr_value(line, line_no) {
                Ok((name, value)) => if text::lower(name) == key {
                    seq![value] + rest
                } else {
                    rest
                },
                Err(_) => rest,
            }
        }
    }
}

proof fn values_named_push(lines: Numbered, line: (nat, Seq<char>), key: Seq<char>)
    ensures
        values_named(lines.push(line), key) == values_named(lines, key) + values_named(
            seq![line],
            key,
        ),
    decreases lines.len(),
{
    let all = lines.push(line);
    if lines.len() == 0 {
        assert(all =~= seq![line]);
        assert(Seq::<Seq<char>>::empty() + values_named(seq![line], key) =~= values_named(
            seq![line],
            key,
        ));
    } else {
        assert(all.drop_first() =~= lines.drop_first().push(line));
        values_named_push(lines.drop_first(), line, key);
        assert(values_named(all, key) =~= values_named(lines, key) + values_named(
            seq![line],
            key,
        ));
    }
}

proof fn value_of_one(line: (nat, Seq<char>), key: Seq<char>)
    ensures
        values_named(seq![line], key) == (if is_remark(line.1) {
            Seq::<Seq<char>>::empty()
        } else {
            match attr_value(line.1, line.0) {
                Ok((name, value)) => if text::lower(name) == key {
                    seq![value]
                } else {
                    Seq::empty()
                },
                Err(_) => Seq::empty(),
            }
        }),
{
    let one = seq![line];
    assert(one.drop_first() =~= Seq::<(nat, Seq<char>)>::empty());
    assert(values_named(one.drop_first(), key) =~= Seq::<Seq<char>>::empty());
    assert(one[0] == line);
    assert(values_named(one, key) =~= (if is_remark(line.1) {
        Seq::<Seq<char>>::empty()
    } else {
        match attr_value(line.1, line.0) {
            Ok((name, value)) => if text::lower(name) == key {
                seq![value]
            } else {
                Seq::empty()
            },
            Err(_) => Seq::empty(),
        }
    }));
}

/// What is read of the lines of an entry has, under each name but that of the
/// entry itself, the values of the lines with that name, in their order and in
/// any case of the name.
pub proof fn every_line_is_read(lines: Numbered, key: Seq<char>)
    requires
        key != text::lower("dn"@),
    ensures
        drafted(lines) matches Ok(draft) ==> string_map::lookup(draft.attributes, key) == (
        if values_named(lines, key).len() == 0 {
            None
        } else {
            Some(values_named(lines, key))
        }),
    decreases lines.len(),
{
    if lines.len() > 0 {
        let front = lines.drop_last();
        let line = lines.last();
        every_line_is_read(front, key);
        assert(lines =~= front.push(line));
        values_named_push(front, line, key);
        value_of_one(line, key);
        let before = values_named(front, key);
        assert(before + Seq::<Seq<char>>::empty() =~= before);
        if let Ok(draft) = drafted(front) {
            if !is_remark(line.1) {
                if let Ok((name, value)) = attr_value(line.1, line.0) {
                    let lowered = text::lower(name);
                    let values = match string_map::lookup(draft.attributes, lowered) {
                        Some(values) => values.push(value),
                        None => seq![value],
                    };
                    string_map::lookup_put(draft.attributes, lowered, values, key);
                    if lowered == key {
                        assert(before + seq![value] =~= before.push(value));
                        if before.len() == 0 {
                            assert(before.push(value) =~= seq![value]);
                        }
                    }
                }
            }
        }
    }
}

/// The entry is named by the last line that names it, and nothing is an entry
/// without such a line.
pub proof fn the_name_is_read(lines: Numbered)
    ensures
        drafted(lines) matches Ok(draft) ==> draft.dn == (if values_named(
            lines,
            text::lower("dn"@),
        ).len() == 0 {
            None
        } else {
            Some(values_named(lines, text::lower("dn"@)).last())
        }),
    decreases lines.len(),
{
    let key = text::lower("dn"@);
    if lines.len() > 0 {
        let front = lines.drop_last();
        let line = lines.last();
        the_name_is_read(front);
        assert(lines =~= front.push(line));
        values_named_push(front, line, key);
        value_of_one(line, key);
        let before = values_named(front, key);
        assert(before + Seq::<Seq<char>>::empty() =~= before);
        if !is_remark(line.1) {
            if let Ok((name, value)) = attr_value(line.1, line.0) {
                assert((before + seq![value]).last() == value);
            }
        }
    }
}

/// The lines of an entry that is not that of the root user are read as they are:
/// the name of the entry is the last one that was written, and each attribute
/// has the values that were written. The root user is known by its short or its
/// full name, in any case, and has the full one.
pub proof fn an_entry_is_what_its_lines_say(
    lines: Numbered,
    root_user_dn: Seq<char>,
    root_dn: Seq<char>,
    root_password: Seq<char>,
    key: Seq<char>,
)
    requires
        key != text::lower("dn"@),
        initial_entry(lines, root_user_dn, root_dn, root_password) is Ok,
    ensures
        ({
            let entry = initial_entry(lines, root_user_dn, root_dn, root_password)->Ok_0;
            let names = values_named(lines, text::lower("dn"@));
            let values = values_named(lines, key);
            let is_root = text::lower(names.last()) == text::lower(root_user_dn) || text::lower(
                names.last(),
            ) == text::lower(root_dn);
            &&& names.len() > 0
            &&& is_root ==> entry.dn == root_dn
            &&& !is_root ==> entry.dn == names.last()
            &&& !is_root || root_password.len() == 0 || key != "userpassword"@
                ==> string_map::lookup(entry.attributes, key) == (if values.len() == 0 {
                None
            } else {
                Some(values)
            })
            &&& is_root && root_password.len() > 0 ==> string_map::lookup(
                entry.attributes,
                "userpassword"@,
            ) == Some(seq![root_password])
        }),
{
    the_name_is_read(lines);
    every_line_is_read(lines, key);
    let draft = drafted(lines)->Ok_0;
    string_map::lookup_put(draft.attributes, "userpassword"@, seq![root_password], key);
    string_map::lookup_put(
        draft.attributes,
        "userpassword"@,
        seq![root_password],
        "userpassword"@,
    );
}

/// The line has a value of an attribute that the server keeps itself.
pub open spec fn is_kept_by_the_server(line: (nat, Seq<char>)) -> bool {
    match attr_value(line.1, line.0) {
        Ok((name, _)) => text::lower(name) != text::lower("dn"@)
            && directory::is_operational_name(text::lower(name)),
        Err(_) => false,
    }
}

/// Lines that name no entry, or hold an attribute that the server keeps, or a
/// line that cannot be read, are no entry.
pub proof fn faulty_lines_are_no_entry(
    lines: Numbered,
    root_user_dn: Seq<char>,
    root_dn: Seq<char>,
    root_password: Seq<char>,
    i: int,
)
    requires
        0 <= i < lines.len(),
        !is_remark(lines[i].1),
    ensures
        attr_value(lines[i].1, lines[i].0) is Err ==> initial_entry(
            lines,
            root_user_dn,
            root_dn,
            root_password,
        ) is Err,
        is_kept_by_the_server(lines[i]) ==> initial_entry(
            lines,
            root_user_dn,
            root_dn,
            root_password,
        ) is Err,
        values_named(lines, text::lower("dn"@)).len() == 0 ==> initial_entry(
            lines,
            root_user_dn,
            root_dn,
            root_password,
        ) is Err,
{
    the_name_is_read(lines);
    fault_stays(lines, i);
}

proof fn fault_stays(lines: Numbered, i: int)
    requires
        0 <= i < lines.len(),
        !is_remark(lines[i].1),
    ensures
        attr_value(lines[i].1, lines[i].0) is Err ==> drafted(lines) is Err,
        is_kept_by_the_server(lines[i]) ==> drafted(lines) is Err,
    decreases lines.len(),
{
    let front = lines.drop_last();
    if i < front.len() {
        assert(front[i] == lines[i]);
        fault_stays(front, i);
    }
}

/// A line with a name, a colon, a space and a value is read as that name and
/// that value; with two colons the value is what its text in base 64 stands for.
pub proof fn lines_are_read_as_written(
    name: Seq<char>,
    value: Seq<char>,
    line_no: nat,
)
    requires
        name.len() > 0,
        text::is_trimmed(name),
        !name.contains(':'),
    ensures
        value.len() > 0 && !text::is_space(value[0]) && value[0] != '<' ==> attr_value(
            name + seq![':', ' '] + value,
            line_no,
        ) == Ok::<(Seq<char>, Seq<char>), LdifErrorView>((name, value)),
        value.len() > 0 && !text::is_space(value[0]) ==> attr_value(
            name + seq![':', ':', ' '] + value,
            line_no,
        ) == (match decoded_value(name, line_no, base64_decoded(value)) {
            Ok(v) => Ok::<(Seq<char>, Seq<char>), LdifErrorView>((name, v)),
            Err(e) => Err(e),
        }),
        value.len() > 0 && value[0] == '<' ==> attr_value(
            name + seq![':', ' '] + value,
            line_no,
        ) is Err,
{
    text::trim_of_trimmed(name);
    let n = name.len() as int;
    let plain = name + seq![':', ' '] + value;
    let encoded = name + seq![':', ':', ' '] + value;
    assert forall|j: int| 0 <= j < n implies plain[j] != ':' && encoded[j] != ':' by {
        assert(name.contains(name[j]));
        assert(plain[j] == name[j]);
        assert(encoded[j] == name[j]);
    }
    assert(plain[n] == ':' && encoded[n] == ':');
    text::find_char_unique(plain, ':', n);
    text::find_char_unique(encoded, ':', n);
    assert(plain.take(n) =~= name);
    assert(encoded.take(n) =~= name);
    assert(plain.skip(n + 1) =~= seq![' '] + value);
    assert(encoded.skip(n + 1) =~= seq![':', ' '] + value);
    assert(encoded.skip(n + 1).drop_first() =~= seq![' '] + value);
    let padded = seq![' '] + value;
    assert(padded[0] == ' ');
    assert(text::is_space(' '));
    assert(padded.drop_first() =~= value);
    reveal_with_fuel(text::trim_start, 3);
}

/// The line is empty but for white space.
pub open spec fn is_blank(line: (nat, Seq<char>)) -> bool {
    text::trim(line.1).len() == 0
}

/// Lines without an empty one among them are one entry, and an empty line parts
/// the entries before it from those behind it.
pub proof fn empty_lines_part_entries(a: Numbered, blank: (nat, Seq<char>), b: Numbered)
    requires
        is_blank(blank),
    ensures
        records(a + seq![blank] + b) == records(a) + records(b),
        (forall|i: int| 0 <= i < a.len() ==> !is_blank(#[trigger] a[i])) && a.len() > 0 ==> records(
            a,
        ) == seq![a],
        (forall|i: int| 0 <= i < a.len() ==> is_blank(#[trigger] a[i])) ==> records(a).len() == 0,
{
    parted(a, blank, b);
    let (done_a, current_a) = grouped(a);
    let (done_b, current_b) = grouped(b);
    let all = a + seq![blank] + b;
    if current_b.len() > 0 {
        assert(records(all) =~= records(a) + records(b));
    } else {
        assert(records(all) =~= records(a) + records(b));
    }
    if forall|i: int| 0 <= i < a.len() ==> !is_blank(#[trigger] a[i]) {
        full_lines(a);
        if a.len() > 0 {
            assert(records(a) =~= seq![a]);
        }
    }
    if forall|i: int| 0 <= i < a.len() ==> is_blank(#[trigger] a[i]) {
        blank_lines(a);
    }
}

proof fn full_lines(a: Numbered)
    requires
        forall|i: int| 0 <= i < a.len() ==> !is_blank(#[trigger] a[i]),
    ensures
        grouped(a) == (Seq::<Numbered>::empty(), a),
    decreases a.len(),
{
    if a.len() > 0 {
        let front = a.drop_last();
        assert forall|i: int| 0 <= i < front.len() implies !is_blank(#[trigger] front[i]) by {
            assert(front[i] == a[i]);
        }
        full_lines(front);
        assert(!is_blank(a[a.len() - 1]));
        assert(front.push(a.last()) =~= a);
    } else {
        assert(a =~= Seq::<(nat, Seq<char>)>::empty());
    }
}

proof fn blank_lines(a: Numbered)
    requires
        forall|i: int| 0 <= i < a.len() ==> is_blank(#[trigger] a[i]),
    ensures
        grouped(a).0.len() == 0,
        grouped(a).1.len() == 0,
    decreases a.len(),
{
    if a.len() > 0 {
        let front = a.drop_last();
        assert forall|i: int| 0 <= i < front.len() implies is_blank(#[trigger] front[i]) by {
            assert(front[i] == a[i]);
        }
        blank_lines(front);
        assert(is_blank(a[a.len() - 1]));
    }
}

proof fn parted(a: Numbered, blank: (nat, Seq<char>), b: Numbered)
    requires
        is_blank(blank),
    ensures
        grouped(a + seq![blank] + b).0 == records(a) + grouped(b).0,
        grouped(a + seq![blank] + b).1 == grouped(b).1,
    decreases b.len(),
{
    let all = a + seq![blank] + b;
    if b.len() == 0 {
        assert(all.drop_last() =~= a);
        assert(all.last() == blank);
        assert(records(a) + Seq::<Numbered>::empty() =~= records(a));
        assert(grouped(all).0 =~= records(a) + grouped(b).0);
        assert(grouped(all).1 =~= grouped(b).1);
    } else {
        let front = b.drop_last();
        parted(a, blank, front);
        assert(all.drop_last() =~= a + seq![blank] + front);
        assert(all.last() == b.last());
        assert(grouped(all).0 =~= records(a) + grouped(b).0);
    }
}

/// Lines none of which goes on with a space are read one by one, each with its
/// number; a line that goes on makes none of its own.
pub proof fn lines_keep_their_numbers(lines: Seq<Seq<char>>)
    requires
        forall|i: int|
            0 <= i < lines.len() ==> !((#[trigger] lines[i]).len() > 0 && lines[i][0] == ' '),
    ensures
        unfolded(lines) matches Ok(out) && out.len() == lines.len() && forall|i: int|
            0 <= i < lines.len() ==> #[trigger] out[i] == ((i + 1) as nat, lines[i]),
    decreases lines.len(),
{
    if lines.len() > 0 {
        let front = lines.drop_last();
        assert forall|i: int| 0 <= i < front.len() implies !((#[trigger] front[i]).len() > 0
            && front[i][0] == ' ') by {
            assert(front[i] == lines[i]);
        }
        lines_keep_their_numbers(front);
        assert(!(lines[lines.len() - 1].len() > 0 && lines[lines.len() - 1][0] == ' '));
        let before = unfolded(front)->Ok_0;
        let out = unfolded(lines)->Ok_0;
        assert forall|i: int| 0 <= i < lines.len() implies #[trigger] out[i] == (
            (i + 1) as nat,
            lines[i],
        ) by {
            if i < front.len() {
                assert(out[i] == before[i]);
                assert(front[i] == lines[i]);
            }
        }
    }
}

} // verus!
