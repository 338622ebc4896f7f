//! The text of the statements that write states in batches. The database
//! driver offers no batch update, so the statements are put together here
//! and handed to it as they are.

use vstd::prelude::*;
use vstd::string::StringExecFns;

verus! {

/// A global state as it is stored.
#[derive(Clone, Debug, PartialEq, Eq)]
pub struct StoredGlobalState {
    pub object_id: String,
    pub owner: String,
    pub flag: i16,
    pub value: String,
    pub key_type: String,
    pub size: i64,
    pub created_at: i64,
    pub updated_at: i64,
}

/// A leaf state as it is stored.
#[derive(Clone, Debug, PartialEq, Eq)]
pub struct StoredLeafState {
    pub id: String,
    pub object_id: String,
    pub key_hex: String,
    pub value: String,
    pub value_type: String,
    pub created_at: i64,
    pub updated_at: i64,
}

/// The text with every single quote doubled, as a text literal of the
/// database takes it.
pub open spec fn escaped(text: Seq<char>) -> Seq<char>
    decreases text.len(),
{
    if text.len() == 0 {
        Seq::empty()
    } else if text.last() == '\'' {
        escaped(text.drop_last()) + seq!['\'', '\'']
    } else {
        escaped(text.drop_last()).push(text.last())
    }
}

/// Appends a character with `String::push`. The contract claims what the
/// standard library documents: the character is appended, and the text that
/// stood there stays.
#[verifier::external_body]
fn push_char(out: &mut String, c: char)
    ensures
        final(out)@ == old(out)@.push(c),
{
    out.push(c);
}

/// Appends a text with every single quote doubled.
fn write_escaped(out: &mut String, text: &str)
    ensures
        final(out)@ == old(out)@ + escaped(text@),
{
    let ghost start = out@;
    proof {
        assert(text@.take(0) =~= Seq::<char>::empty());
        assert(out@ =~= start + escaped(text@.take(0)));
    }
    for c in iter: text.chars()
        invariant
            iter.seq() == text@,
            out@ == start + escaped(text@.take(iter.index())),
    {
        let ghost at = iter.index();
        proof {
            assert(text@.take(at + 1).drop_last() =~= text@.take(at));
            assert(text@.take(at + 1).last() == c);
        }
        if c == '\'' {
            proof {
                reveal_strlit("''");
            }
            out.append("''");
            assert(out@ =~= start + escaped(text@.take(at + 1)));
        } else {
            push_char(out, c);
            assert(out@ =~= start + escaped(text@.take(at + 1)));
        }
    }
    assert(text@.take(text@.len() as int) =~= text@);
}

/// Makes a text safe to stand in a text literal of a statement.
pub fn escape_sql_string(value: String) -> (r: String)
    ensures
        r@ == escaped(value@),
{
    let mut out = String::new();
    write_escaped(&mut out, value.as_str());
    assert(out@ =~= escaped(value@));
    out
}

/// The decimal digit of a number below ten.
pub open spec fn digit(d: int) -> char {
    if d == 0 {
        '0'
    } else if d == 1 {
        '1'
    } else if d == 2 {
        '2'
    } else if d == 3 {
        '3'
    } else if d == 4 {
        '4'
    } else if d == 5 {
        '5'
    } else if d == 6 {
        '6'
    } else if d == 7 {
        '7'
    } else if d == 8 {
        '8'
    } else {
        '9'
    }
}

/// The decimal digits of a natural number, without leading zeros.
pub open spec fn digits(n: nat) -> Seq<char>
    decreases n,
{
    if n < 10 {
        seq![digit(n as int)]
    } else {
        digits(n / 10).push(digit((n % 10) as int))
    }
}

/// The decimal form of an integer: a minus sign where it is negative, then
/// its digits.
pub open spec fn decimal(x: int) -> Seq<char> {
    if x < 0 {
        seq!['-'] + digits((-x) as nat)
    } else {
        digits(x as nat)
    }
}

/// The text of a decimal digit.
fn digit_str(d: u64) -> (s: &'static str)
    requires
        d < 10,
    ensures
        s@ == seq![digit(d as int)],
{
    proof {
        reveal_strlit("0");
        reveal_strlit("1");
        reveal_strlit("2");
        reveal_strlit("3");
        reveal_strlit("4");
        reveal_strlit("5");
        reveal_strlit("6");
        reveal_strlit("7");
        reveal_strlit("8");
        reveal_strlit("9");
    }
    let s = if d == 0 {
        "0"
    } else if d == 1 {
        "1"
    } else if d == 2 {
        "2"
    } else if d == 3 {
        "3"
    } else if d == 4 {
        "4"
    } else if d == 5 {
        "5"
    } else if d == 6 {
        "6"
    } else if d == 7 {
        "7"
    } else if d == 8 {
        "8"
    } else {
        "9"
    };
    assert(s@ =~= seq![digit(d as int)]);
    s
}

/// Appends the decimal digits of a number.
fn write_digits(out: &mut String, n: u64)
    ensures
        final(out)@ == old(out)@ + digits(n as nat),
    decreases n,
{
    let ghost start = out@;
    if n >= 10 {
        write_digits(out, n / 10);
    }
    out.append(digit_str(n % 10));
    assert(out@ =~= start + digits(n as nat));
}

/// Appends the decimal form of an integer.
pub fn write_decimal(out: &mut String, x: i64)
    ensures
        final(out)@ == old(out)@ + decimal(x as int),
{
    let ghost start = out@;
    if x < 0 {
        proof {
            reveal_strlit("-");
        }
        out.append("-");
        let magnitude: u64 = if x == i64::MIN {
            9223372036854775808
        } else {
            (-x) as u64
        };
        write_digits(out, magnitude);
        assert(out@ =~= start + decimal(x as int));
    } else {
        write_digits(out, x as u64);
    }
}

/// The row of a global state in the list of values of a statement.
pub open spec fn global_state_row(state: StoredGlobalState) -> Seq<char> {
    "('"@ + escaped(state.object_id@) + "', '"@ + escaped(state.owner@) + "', "@ + decimal(
        state.flag as int,
    ) + ", '"@ + escaped(state.value@) + "', '"@ + escaped(state.key_type@) + "', "@ + decimal(
        state.size as int,
    ) + ", "@ + decimal(state.created_at as int) + ", "@ + decimal(state.updated_at as int)
        + ")"@
}

/// The row of a leaf state in the list of values of a statement.
pub open spec fn leaf_state_row(state: StoredLeafState) -> Seq<char> {
    "('"@ + escaped(state.id@) + "', '"@ + escaped(state.object_id@) + "', '"@ + escaped(
        state.key_hex@,
    ) + "', '"@ + escaped(state.value@) + "', '"@ + escaped(state.value_type@) + "', "@
        + decimal(state.created_at as int) + ", "@ + decimal(state.updated_at as int) + ")"@
}

/// Rows with commas between them.
pub open spec fn joined(rows: Seq<Seq<char>>) -> Seq<char>
    decreases rows.len(),
{
    if rows.len() == 0 {
        Seq::empty()
    } else if rows.len() == 1 {
        rows[0]
    } else {
        joined(rows.drop_last()) + ","@ + rows.last()
    }
}

/// The rows of global states.
pub open spec fn global_state_rows(states: Seq<StoredGlobalState>) -> Seq<Seq<char>> {
    states.map_values(|state: StoredGlobalState| global_state_row(state))
}

/// The rows of leaf states.
pub open spec fn leaf_state_rows(states: Seq<StoredLeafState>) -> Seq<Seq<char>> {
    states.map_values(|state: StoredLeafState| leaf_state_row(state))
}

/// The statement that writes global states, and overwrites those that are
/// there already.
pub open spec fn global_states_upsert(states: Seq<StoredGlobalState>) -> Seq<char> {
    "
                INSERT INTO global_states (object_id, owner, flag, value, key_type, size, created_at, updated_at) VALUES "@
        + joined(global_state_rows(states))
        + " ON CONFLICT (object_id) DO UPDATE SET owner = excluded.owner, flag = excluded.flag, value = excluded.value, size = excluded.size, updated_at = excluded.updated_at
            "@
}

/// The statement that writes leaf states, and overwrites those that are
/// there already.
pub open spec fn leaf_states_upsert(states: Seq<StoredLeafState>) -> Seq<char> {
    "
                INSERT INTO leaf_states (id, object_id, key_hex, value, value_type, created_at, updated_at) VALUES "@
        + joined(leaf_state_rows(states))
        + " ON CONFLICT (id) DO UPDATE SET value = excluded.value, value_type = excluded.value_type, updated_at = excluded.updated_at
            "@
}

/// Appends a text literal with the escaped text in it, after `before`.
fn write_literal(out: &mut String, before: &str, text: &String)
    ensures
        final(out)@ == old(out)@ + before@ + escaped(text@),
{
    out.append(before);
    write_escaped(out, text.as_str());
}

/// Appends a number after `before`.
fn write_number(out: &mut String, before: &str, x: i64)
    ensures
        final(out)@ == old(out)@ + before@ + decimal(x as int),
{
    out.append(before);
    write_decimal(out, x);
}

fn write_global_state_row(out: &mut String, state: &StoredGlobalState)
    ensures
        final(out)@ == old(out)@ + global_state_row(*state),
{
    let ghost start = out@;
    write_literal(out, "('", &state.object_id);
    write_literal(out, "', '", &state.owner);
    write_number(out, "', ", state.flag as i64);
    write_literal(out, ", '", &state.value);
    write_literal(out, "', '", &state.key_type);
    write_number(out, "', ", state.size);
    write_number(out, ", ", state.created_at);
    write_number(out, ", ", state.updated_at);
    out.append(")");
    assert(out@ =~= start + global_state_row(*state));
}

fn write_leaf_state_row(out: &mut String, state: &StoredLeafState)
    ensures
        final(out)@ == old(out)@ + leaf_state_row(*state),
{
    let ghost start = out@;
    write_literal(out, "('", &state.id);
    write_literal(out, "', '", &state.object_id);
    write_literal(out, "', '", &state.key_hex);
    write_literal(out, "', '", &state.value);
    write_literal(out, "', '", &state.value_type);
    write_number(out, "', ", state.created_at);
    write_number(out, ", ", state.updated_at);
    out.append(")");
    assert(out@ =~= start + leaf_state_row(*state));
}

/// The statement that writes or updates global states, or none where there
/// are no states to write.
pub fn global_states_upsert_query(states: &Vec<StoredGlobalState>) -> (query: Option<String>)
    ensures
        states@.len() == 0 ==> query is None,
        states@.len() > 0 ==> (query matches Some(text) && text@ == global_states_upsert(
            states@,
        )),
{
    if states.len() == 0 {
        return None;
    }
    let ghost rows = global_state_rows(states@);
    let mut query = String::from_str(
        "
                INSERT INTO global_states (object_id, owner, flag, value, key_type, size, created_at, updated_at) VALUES ",
    );
    let ghost head = query@;
    let mut i: usize = 0;
    assert(rows.take(0) =~= Seq::empty());
    while i < states.len()
        invariant
            i <= states@.len(),
            rows == global_state_rows(states@),
            query@ == head + joined(rows.take(i as int)),
        decreases states@.len() - i,
    {
        let ghost before = query@;
        if i > 0 {
            query.append(",");
        }
        write_global_state_row(&mut query, &states[i]);
        proof {
            let next = rows.take(i + 1);
            assert(next.drop_last() =~= rows.take(i as int));
            assert(next.last() == global_state_row(states@[i as int]));
            assert(query@ =~= head + joined(next));
        }
        i += 1;
    }
    assert(rows.take(states@.len() as int) =~= rows);
    query.append(
        " ON CONFLICT (object_id) DO UPDATE SET owner = excluded.owner, flag = excluded.flag, value = excluded.value, size = excluded.size, updated_at = excluded.updated_at
            ",
    );
    Some(query)
}

/// The statement that writes or updates leaf states, or none where there
/// are no states to write.
pub fn leaf_states_upsert_query(states: &Vec<StoredLeafState>) -> (query: Option<String>)
    ensures
        states@.len() == 0 ==> query is None,
        states@.len() > 0 ==> (query matches Some(text) && text@ == leaf_states_upsert(states@)),
{
    if states.len() == 0 {
        return None;
    }
    let ghost rows = leaf_state_rows(states@);
    let mut query = String::from_str(
        "
                INSERT INTO leaf_states (id, object_id, key_hex, value, value_type, created_at, updated_at) VALUES ",
    );
    let ghost head = query@;
    let mut i: usize = 0;
    assert(rows.take(0) =~= Seq::empty());
    while i < states.len()
        invariant
            i <= states@.len(),
            rows == leaf_state_rows(states@),
            query@ == head + joined(rows.take(i as int)),
        decreases states@.len() - i,
    {
        if i > 0 {
            query.append(",");
        }
        write_leaf_state_row(&mut query, &states[i]);
        proof {
            let next = rows.take(i + 1);
            assert(next.drop_last() =~= rows.take(i as int));
            assert(next.last() == leaf_state_row(states@[i as int]));
            assert(query@ =~= head + joined(next));
        }
        i += 1;
    }
    assert(rows.take(states@.len() as int) =~= rows);
    query.append(
        " ON CONFLICT (id) DO UPDATE SET value = excluded.value, value_type = excluded.value_type, updated_at = excluded.updated_at
            ",
    );
    Some(query)
}

} // verus!
