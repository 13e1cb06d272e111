//! Models: the table that the rows of a type are stored in, and the statements that store, find and
//! remove them.

use crate::text;
use vstd::prelude::*;

verus! {

/// A name in snake case: each upper-case character is put in lower case, with an underscore before
/// it unless it comes first.
pub open spec fn snake_case(name: Seq<char>) -> Seq<char>
    decreases name.len(),
{
    if name.len() == 0 {
        Seq::empty()
    } else {
        let before = snake_case(name.drop_last());
        let c = name.last();
        if !text::upper_case(c) {
            before.push(c)
        } else if name.len() == 1 {
            before.push(text::lowered(c)[0])
        } else {
            before.push('_').push(text::lowered(c)[0])
        }
    }
}

/// A name of ASCII characters in snake case: each capital becomes its small letter, with an
/// underscore before it unless it comes first.
pub open spec fn ascii_snake_case(name: Seq<char>) -> Seq<char>
    decreases name.len(),
{
    if name.len() == 0 {
        Seq::empty()
    } else {
        let before = ascii_snake_case(name.drop_last());
        let c = name.last();
        if !text::ascii_upper(c) {
            before.push(c)
        } else if name.len() == 1 {
            before.push(text::ascii_lowered(c))
        } else {
            before.push('_').push(text::ascii_lowered(c))
        }
    }
}

/// A name without upper-case characters stays as it is in snake case.
pub proof fn lower_case_is_snake_case(name: Seq<char>)
    requires
        forall|i: int| 0 <= i < name.len() ==> !text::upper_case(#[trigger] name[i]),
    ensures
        snake_case(name) == name,
    decreases name.len(),
{
    if name.len() > 0 {
        let front = name.drop_last();
        assert forall|i: int| 0 <= i < front.len() implies !text::upper_case(
            #[trigger] front[i],
        ) by {
            assert(front[i] == name[i]);
        }
        lower_case_is_snake_case(front);
        assert(!text::upper_case(name[name.len() - 1]));
        assert(front.push(name.last()) =~= name);
    }
}

proof fn lemma_ascii_lower_is_snake_case(name: Seq<char>)
    requires
        forall|i: int| 0 <= i < name.len() ==> !text::ascii_upper(#[trigger] name[i]),
    ensures
        ascii_snake_case(name) == name,
    decreases name.len(),
{
    if name.len() > 0 {
        let front = name.drop_last();
        assert forall|i: int| 0 <= i < front.len() implies !text::ascii_upper(
            #[trigger] front[i],
        ) by {
            assert(front[i] == name[i]);
        }
        lemma_ascii_lower_is_snake_case(front);
        assert(!text::ascii_upper(name[name.len() - 1]));
        assert(front.push(name.last()) =~= name);
    }
}

/// Puts a name in snake case.
pub fn to_snake_case(s: &str) -> (r: String)
    ensures
        r@ == snake_case(s@),
        text::is_ascii(s@) ==> r@ == ascii_snake_case(s@),
{
    let chars = text::chars_of(s);
    let mut result = String::new();
    let mut i: usize = 0;
    while i < chars.len()
        invariant
            chars@ == s@,
            i <= chars@.len(),
            result@ == snake_case(s@.take(i as int)),
            text::is_ascii(s@) ==> result@ == ascii_snake_case(s@.take(i as int)),
        decreases chars@.len() - i,
    {
        let c = chars[i];
        proof {
            assert(s@.take(i + 1).drop_last() =~= s@.take(i as int));
            assert(s@.take(i + 1).last() == c);
            assert(c == s@[i as int]);
        }
        if text::is_upper_case(c) {
            if i > 0 {
                result.push('_');
            }
            let small = text::to_lower_case(c);
            result.push(small[0]);
        } else {
            result.push(c);
        }
        i = i + 1;
    }
    proof {
        assert(s@.take(s@.len() as int) =~= s@);
    }
    result
}

/// The table of a type and its columns. Every row has an identifier and the times at which it was
/// made and last changed; the other columns are the type's own.
#[derive(Debug)]
pub struct Model {
    table: String,
    fields: Vec<String>,
}

/// The columns that every table has.
pub open spec fn common_columns() -> Seq<Seq<char>> {
    seq!["id"@, "created_at"@, "updated_at"@]
}

/// The parameters of a statement that has so many, numbered from one.
pub open spec fn placeholders(count: nat) -> Seq<Seq<char>> {
    Seq::new(count, |i: int| seq!['$'] + text::decimal((i + 1) as nat))
}

/// The statement that stores a row and hands it back.
pub open spec fn insert_text(table: Seq<char>, fields: Seq<Seq<char>>) -> Seq<char> {
    let columns = common_columns() + fields;
    "INSERT INTO "@ + table + " ("@ + text::join(columns, ", "@) + ") VALUES ("@ + text::join(
        placeholders(columns.len()),
        ", "@,
    ) + ") RETURNING *"@
}

/// The assignments of a statement that changes a row: the time of the change first, then the
/// fields.
pub open spec fn assignments(fields: Seq<Seq<char>>) -> Seq<Seq<char>> {
    seq!["updated_at = $1"@] + Seq::new(
        fields.len(),
        |i: int| fields[i] + " = $"@ + text::decimal((i + 2) as nat),
    )
}

/// The statement that changes the row with an identifier and hands it back.
pub open spec fn update_text(table: Seq<char>, fields: Seq<Seq<char>>) -> Seq<char> {
    "UPDATE "@ + table + " SET "@ + text::join(assignments(fields), ", "@) + " WHERE id = $"@
        + text::decimal(fields.len() + 2) + " RETURNING *"@
}

impl Model {
    /// The name of the table.
    pub closed spec fn spec_table(&self) -> Seq<char> {
        self.table@
    }

    /// The columns of the type's own.
    pub closed spec fn spec_fields(&self) -> Seq<Seq<char>> {
        text::texts(self.fields@)
    }

    /// The model of a type whose table has the type's name in snake case.
    pub fn new(name: &str, fields: Vec<String>) -> (r: Model)
        ensures
            r.spec_table() == snake_case(name@),
            text::is_ascii(name@) ==> r.spec_table() == ascii_snake_case(name@),
            r.spec_fields() == text::texts(fields@),
    {
        Model { table: to_snake_case(name), fields }
    }

    /// The model of a type whose table has the type's name in lower case, and that in snake case.
    pub fn lower_case(name: &str, fields: Vec<String>) -> (r: Model)
        ensures
            r.spec_table() == snake_case(text::lowered_text(name@)),
            text::is_ascii(name@) ==> r.spec_table() == name@.map_values(
                |c: char| text::ascii_lowered(c),
            ),
            r.spec_fields() == text::texts(fields@),
    {
        let lower = text::to_lower_text(name);
        proof {
            if text::is_ascii(name@) {
                assert(text::is_ascii(lower@));
                lemma_ascii_lower_is_snake_case(lower@);
            }
        }
        Model { table: to_snake_case(lower.as_str()), fields }
    }

    /// The name of the table.
    pub fn table_name(&self) -> (r: &str)
        ensures
            r@ == self.spec_table(),
    {
        self.table.as_str()
    }

    fn around_table(&self, before: &str, after: &str) -> (r: String)
        ensures
            r@ == before@ + self.spec_table() + after@,
    {
        let mut out = before.to_owned();
        out.append(self.table.as_str());
        out.append(after);
        out
    }

    /// The query for the row with an identifier.
    pub fn select_by_id(&self) -> (r: String)
        ensures
            r@ == "SELECT * FROM "@ + self.spec_table() + " WHERE id = $1"@,
    {
        self.around_table("SELECT * FROM ", " WHERE id = $1")
    }

    /// The query for all rows, the newest first.
    pub fn select_all(&self) -> (r: String)
        ensures
            r@ == "SELECT * FROM "@ + self.spec_table() + " ORDER BY created_at DESC"@,
    {
        self.around_table("SELECT * FROM ", " ORDER BY created_at DESC")
    }

    /// The query for the rows of one page, the newest first.
    pub fn select_page(&self) -> (r: String)
        ensures
            r@ == "SELECT * FROM "@ + self.spec_table()
                + " ORDER BY created_at DESC LIMIT $1 OFFSET $2"@,
    {
        self.around_table("SELECT * FROM ", " ORDER BY created_at DESC LIMIT $1 OFFSET $2")
    }

    /// The query for the number of rows.
    pub fn count(&self) -> (r: String)
        ensures
            r@ == "SELECT COUNT(*) FROM "@ + self.spec_table(),
    {
        text::concat("SELECT COUNT(*) FROM ", self.table.as_str())
    }

    /// The statement that removes the row with an identifier.
    pub fn delete(&self) -> (r: String)
        ensures
            r@ == "DELETE FROM "@ + self.spec_table() + " WHERE id = $1"@,
    {
        self.around_table("DELETE FROM ", " WHERE id = $1")
    }

    /// The statement that stores a row. Its parameters are the identifier, the two times and the
    /// fields.
    pub fn insert(&self) -> (r: String)
        ensures
            r@ == insert_text(self.spec_table(), self.spec_fields()),
    {
        let mut columns: Vec<String> = Vec::new();
        columns.push("id".to_owned());
        columns.push("created_at".to_owned());
        columns.push("updated_at".to_owned());
        let ghost all = common_columns() + self.spec_fields();
        let mut i: usize = 0;
        while i < self.fields.len()
            invariant
                i <= self.fields@.len(),
                all == common_columns() + text::texts(self.fields@),
                columns@.len() == i + 3,
                forall|j: int| 0 <= j < columns@.len() ==> (#[trigger] columns@[j])@ == all[j],
            decreases self.fields@.len() - i,
        {
            columns.push(self.fields[i].clone());
            i = i + 1;
        }
        proof {
            assert(text::texts(columns@) =~= all);
        }
        let mut numbers: Vec<String> = Vec::new();
        let mut k: usize = 0;
        while k < columns.len()
            invariant
                k <= columns@.len(),
                numbers@.len() == k,
                forall|j: int|
                    0 <= j < k ==> (#[trigger] numbers@[j])@ == placeholders(columns@.len())[j],
            decreases columns@.len() - k,
        {
            k = k + 1;
            let mut number = "$".to_owned();
            let digits = text::u64_text(k as u64);
            number.append(digits.as_str());
            proof {
                reveal_strlit("$");
                assert(number@ =~= placeholders(columns@.len())[k - 1]);
            }
            numbers.push(number);
        }
        proof {
            assert(text::texts(numbers@) =~= placeholders(columns@.len()));
        }
        let mut out = self.around_table("INSERT INTO ", " (");
        let names = text::join_text(&columns, ", ");
        out.append(names.as_str());
        out.append(") VALUES (");
        let marks = text::join_text(&numbers, ", ");
        out.append(marks.as_str());
        out.append(") RETURNING *");
        out
    }

    /// The statement that changes a row. Its parameters are the time of the change, the fields and
    /// the identifier.
    pub fn update(&self) -> (r: String)
        ensures
            r@ == update_text(self.spec_table(), self.spec_fields()),
    {
        let ghost all = assignments(self.spec_fields());
        let mut clauses: Vec<String> = Vec::new();
        clauses.push("updated_at = $1".to_owned());
        let mut i: usize = 0;
        while i < self.fields.len()
            invariant
                i <= self.fields@.len(),
                all == assignments(text::texts(self.fields@)),
                clauses@.len() == i + 1,
                forall|j: int| 0 <= j < clauses@.len() ==> (#[trigger] clauses@[j])@ == all[j],
            decreases self.fields@.len() - i,
        {
            let mut clause = self.fields[i].clone();
            clause.append(" = $");
            let number = text::u128_text(i as u128 + 2);
            clause.append(number.as_str());
            proof {
                assert(clause@ =~= all[i + 1]);
            }
            clauses.push(clause);
            i = i + 1;
        }
        proof {
            assert(text::texts(clauses@) =~= all);
        }
        let mut out = self.around_table("UPDATE ", " SET ");
        let sets = text::join_text(&clauses, ", ");
        out.append(sets.as_str());
        out.append(" WHERE id = $");
        let last = text::u128_text(self.fields.len() as u128 + 2);
        out.append(last.as_str());
        out.append(" RETURNING *");
        out
    }
}

/// The numbers of rows that a page asks for and passes over. Pages count from one.
pub fn page_window(page: u32, per_page: u32) -> (r: (i64, i64))
    requires
        page >= 1,
        (page - 1) * per_page <= u32::MAX,
    ensures
        r.0 == per_page,
        r.1 == (page - 1) * per_page,
{
    (per_page as i64, ((page - 1) * per_page) as i64)
}

// ---------------------------------------------------------------------------------------------
// What the statements say
// ---------------------------------------------------------------------------------------------

/// The statement that stores a row names the identifier, the two times and the fields, in this
/// order, and has as many parameters, numbered from one.
pub proof fn a_row_is_stored_by_name(table: Seq<char>, fields: Seq<Seq<char>>)
    ensures
        exists|columns: Seq<Seq<char>>, marks: Seq<Seq<char>>|
            {
                &&& insert_text(table, fields) == "INSERT INTO "@ + table + " ("@
                    + #[trigger] text::join(columns, ", "@) + ") VALUES ("@ + #[trigger] text::join(
                    marks,
                    ", "@,
                ) + ") RETURNING *"@
                &&& columns.len() == fields.len() + 3
                &&& marks.len() == columns.len()
                &&& columns[0] == "id"@
                &&& columns[1] == "created_at"@
                &&& columns[2] == "updated_at"@
                &&& forall|i: int| 0 <= i < fields.len() ==> columns[i + 3] == #[trigger] fields[i]
                &&& forall|i: int|
                    0 <= i < marks.len() ==> #[trigger] marks[i] == seq!['$'] + text::decimal(
                        (i + 1) as nat,
                    )
            },
{
    let columns = common_columns() + fields;
    let marks = placeholders(columns.len());
    assert(insert_text(table, fields) == "INSERT INTO "@ + table + " ("@ + text::join(
        columns,
        ", "@,
    ) + ") VALUES ("@ + text::join(marks, ", "@) + ") RETURNING *"@);
}

/// The statement that changes a row sets the time of the change and every field, in this order, with
/// parameters numbered from one, and picks the row by the parameter after those.
pub proof fn a_row_is_changed_by_name(table: Seq<char>, fields: Seq<Seq<char>>)
    ensures
        exists|sets: Seq<Seq<char>>|
            {
                &&& update_text(table, fields) == "UPDATE "@ + table + " SET "@
                    + #[trigger] text::join(sets, ", "@) + " WHERE id = $"@ + text::decimal(
                    fields.len() + 2,
                ) + " RETURNING *"@
                &&& sets.len() == fields.len() + 1
                &&& sets[0] == "updated_at = $1"@
                &&& forall|i: int|
                    0 <= i < fields.len() ==> sets[i + 1] == #[trigger] fields[i] + " = $"@
                        + text::decimal((i + 2) as nat)
            },
{
    let sets = assignments(fields);
    assert(update_text(table, fields) == "UPDATE "@ + table + " SET "@ + text::join(sets, ", "@)
        + " WHERE id = $"@ + text::decimal(fields.len() + 2) + " RETURNING *"@);
}

/// A name is put in snake case character by character: a capital becomes its small letter, after an
/// underscore unless it comes first, and any other character stays.
pub proof fn each_character_is_put_in_snake_case(name: Seq<char>, c: char)
    ensures
        ascii_snake_case(Seq::empty()) == Seq::<char>::empty(),
        ascii_snake_case(name.push(c)) == if 'A' <= c <= 'Z' {
            ascii_snake_case(name) + (if name.len() > 0 {
                seq!['_']
            } else {
                Seq::empty()
            }) + seq![((c as u32) + 32) as char]
        } else {
            ascii_snake_case(name) + seq![c]
        },
        snake_case(Seq::empty()) == Seq::<char>::empty(),
        snake_case(name.push(c)) == if text::upper_case(c) {
            snake_case(name) + (if name.len() > 0 {
                seq!['_']
            } else {
                Seq::empty()
            }) + seq![text::lowered(c)[0]]
        } else {
            snake_case(name) + seq![c]
        },
{
    assert(name.push(c).drop_last() =~= name);
    if name.len() == 0 {
        assert(name =~= Seq::<char>::empty());
    }
    assert(ascii_snake_case(name.push(c)) =~= if 'A' <= c <= 'Z' {
        ascii_snake_case(name) + (if name.len() > 0 {
            seq!['_']
        } else {
            Seq::empty()
        }) + seq![((c as u32) + 32) as char]
    } else {
        ascii_snake_case(name) + seq![c]
    });
    assert(snake_case(name.push(c)) =~= if text::upper_case(c) {
        snake_case(name) + (if name.len() > 0 {
            seq!['_']
        } else {
            Seq::empty()
        }) + seq![text::lowered(c)[0]]
    } else {
        snake_case(name) + seq![c]
    });
}

} // verus!
