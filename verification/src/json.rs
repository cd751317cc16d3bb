//! JSON values.

use vstd::prelude::*;

use crate::text::{
    is_before, same_text, text_before, text_order_is_total, text_order_is_transitive,
};

verus! {

/// A JSON value. A number is an unsigned integer, a negative integer, or a number with a fraction or
/// an exponent, held as the bits of its double.
#[derive(Debug, PartialEq, Eq)]
pub enum JsonValue {
    Null,
    Bool(bool),
    Unsigned(u64),
    Negative(i64),
    Double(u64),
    Text(String),
    List(Vec<JsonValue>),
    Object(Vec<(String, JsonValue)>),
}

/// What a JSON value is.
pub enum JsonModel {
    Null,
    Bool(bool),
    Unsigned(u64),
    Negative(i64),
    Double(u64),
    Text(Seq<char>),
    List(Seq<JsonModel>),
    Object(Seq<(Seq<char>, JsonModel)>),
}

impl JsonValue {
    /// What the value is.
    pub open spec fn model(self) -> JsonModel
        decreases self,
    {
        match self {
            JsonValue::Null => JsonModel::Null,
            JsonValue::Bool(value) => JsonModel::Bool(value),
            JsonValue::Unsigned(value) => JsonModel::Unsigned(value),
            JsonValue::Negative(value) => JsonModel::Negative(value),
            JsonValue::Double(bits) => JsonModel::Double(bits),
            JsonValue::Text(text) => JsonModel::Text(text@),
            JsonValue::List(list) => JsonModel::List(
                Seq::new(
                    list@.len(),
                    |i: int|
                        if 0 <= i < list@.len() {
                            list@[i].model()
                        } else {
                            arbitrary()
                        },
                ),
            ),
            JsonValue::Object(fields) => JsonModel::Object(
                Seq::new(
                    fields@.len(),
                    |i: int|
                        if 0 <= i < fields@.len() {
                            (fields@[i].0@, fields@[i].1.model())
                        } else {
                            arbitrary()
                        },
                ),
            ),
        }
    }
}

impl DeepView for JsonValue {
    type V = JsonModel;

    open spec fn deep_view(&self) -> JsonModel {
        self.model()
    }
}

impl Clone for JsonValue {
    fn clone(&self) -> (r: Self)
        ensures
            r.deep_view() == self.deep_view(),
        decreases self,
    {
        match self {
            JsonValue::Null => JsonValue::Null,
            JsonValue::Bool(value) => JsonValue::Bool(*value),
            JsonValue::Unsigned(value) => JsonValue::Unsigned(*value),
            JsonValue::Negative(value) => JsonValue::Negative(*value),
            JsonValue::Double(bits) => JsonValue::Double(*bits),
            JsonValue::Text(text) => JsonValue::Text(text.clone()),
            JsonValue::List(list) => {
                let mut copy: Vec<JsonValue> = Vec::new();
                let n: usize = list.len();
                let mut i: usize = 0;
                while i < n
                    invariant
                        *self == JsonValue::List(*list),
                        i <= n == list@.len(),
                        copy@.len() == i,
                        forall|k: int| 0 <= k < i ==> (#[trigger] copy@[k]).model() == list@[k].model(),
                    decreases n - i,
                {
                    assert(decreases_to!(*self => self->List_0@[i as int]));
                    copy.push(list[i].clone());
                    i += 1;
                }
                let r = JsonValue::List(copy);
                assert(r.model()->List_0 =~= self.model()->List_0);
                r
            },
            JsonValue::Object(fields) => {
                let mut copy: Vec<(String, JsonValue)> = Vec::new();
                let n: usize = fields.len();
                let mut i: usize = 0;
                while i < n
                    invariant
                        *self == JsonValue::Object(*fields),
                        i <= n == fields@.len(),
                        copy@.len() == i,
                        forall|k: int|
                            0 <= k < i ==> (#[trigger] copy@[k]).0@ == fields@[k].0@
                                && copy@[k].1.model() == fields@[k].1.model(),
                    decreases n - i,
                {
                    assert(decreases_to!(*self => self->Object_0@[i as int].1));
                    copy.push((fields[i].0.clone(), fields[i].1.clone()));
                    i += 1;
                }
                let r = JsonValue::Object(copy);
                assert(r.model()->Object_0 =~= self.model()->Object_0);
                r
            },
        }
    }
}

/// A copy of fields.
pub fn copy_fields(fields: &Vec<(String, JsonValue)>) -> (r: Vec<(String, JsonValue)>)
    ensures
        r.deep_view() == fields.deep_view(),
{
    let mut copy: Vec<(String, JsonValue)> = Vec::new();
    let n: usize = fields.len();
    let mut i: usize = 0;
    while i < n
        invariant
            i <= n == fields@.len(),
            copy@.len() == i,
            forall|k: int| 0 <= k < i ==> (#[trigger] copy@[k]).deep_view() == fields@[k].deep_view(),
        decreases n - i,
    {
        copy.push((fields[i].0.clone(), fields[i].1.clone()));
        i += 1;
    }
    assert(copy.deep_view() =~= fields.deep_view());
    copy
}

/// The value of the first field with the name.
pub open spec fn field_of(fields: Seq<(Seq<char>, JsonModel)>, name: Seq<char>) -> Option<JsonModel>
    decreases fields.len(),
{
    if fields.len() == 0 {
        None
    } else if fields[0].0 == name {
        Some(fields[0].1)
    } else {
        field_of(fields.drop_first(), name)
    }
}

/// Whether no name occurs twice.
pub open spec fn distinct_names(fields: Seq<(Seq<char>, JsonModel)>) -> bool {
    forall|i: int, j: int|
        0 <= i < j < fields.len() ==> (#[trigger] fields[i]).0 != (#[trigger] fields[j]).0
}

/// Where no name occurs twice, each name has the value of its field, and no other name has one.
pub proof fn lemma_fields(fields: Seq<(Seq<char>, JsonModel)>)
    requires
        distinct_names(fields),
    ensures
        forall|i: int|
            0 <= i < fields.len() ==> field_of(fields, (#[trigger] fields[i]).0) == Some(
                fields[i].1,
            ),
        forall|name: Seq<char>|
            (forall|i: int| 0 <= i < fields.len() ==> (#[trigger] fields[i]).0 != name) ==> (
            #[trigger] field_of(fields, name)) is None,
    decreases fields.len(),
{
    if fields.len() > 0 {
        let rest = fields.drop_first();
        assert forall|i: int, j: int| 0 <= i < j < rest.len() implies (#[trigger] rest[i]).0 != (
        #[trigger] rest[j]).0 by {
            assert(rest[i] == fields[i + 1] && rest[j] == fields[j + 1]);
        }
        lemma_fields(rest);
        assert forall|i: int| 0 <= i < fields.len() implies field_of(
            fields,
            (#[trigger] fields[i]).0,
        ) == Some(fields[i].1) by {
            if i > 0 {
                assert(rest[i - 1] == fields[i]);
                assert(fields[0].0 != fields[i].0);
            }
        }
        assert forall|name: Seq<char>|
            (forall|i: int| 0 <= i < fields.len() ==> (#[trigger] fields[i]).0 != name) implies (
        #[trigger] field_of(fields, name)) is None by {
            assert forall|i: int| 0 <= i < rest.len() implies (#[trigger] rest[i]).0 != name by {
                assert(rest[i] == fields[i + 1]);
            }
            assert(fields[0].0 != name);
            assert(field_of(rest, name) is None);
        }
    }
}

/// The text that a value is, if it is one.
pub open spec fn text_value(value: Option<JsonModel>) -> Option<Seq<char>> {
    match value {
        Some(JsonModel::Text(text)) => Some(text),
        _ => None,
    }
}

/// The value of the first field with the name.
pub fn find_field<'a>(fields: &'a Vec<(String, JsonValue)>, name: &str) -> (r: Option<&'a JsonValue>)
    ensures
        r.deep_view() == field_of(fields.deep_view(), name@),
{
    let ghost all = fields.deep_view();
    let mut i: usize = 0;
    assert(all.skip(0) =~= all);
    while i < fields.len()
        invariant
            i <= fields@.len(),
            all == fields.deep_view(),
            field_of(all, name@) == field_of(all.skip(i as int), name@),
        decreases fields@.len() - i,
    {
        assert(all[i as int] == fields@[i as int].deep_view());
        if same_text(fields[i].0.as_str(), name) {
            return Some(&fields[i].1);
        }
        assert(all.skip(i as int).drop_first() =~= all.skip(i + 1));
        i += 1;
    }
    None
}

/// The text that the first field with the name is, if it is one.
pub fn find_text<'a>(fields: &'a Vec<(String, JsonValue)>, name: &str) -> (r: Option<&'a String>)
    ensures
        r.deep_view() == text_value(field_of(fields.deep_view(), name@)),
{
    match find_field(fields, name) {
        Some(JsonValue::Text(text)) => Some(text),
        _ => None,
    }
}

/// What an object is.
pub proof fn lemma_object(fields: Vec<(String, JsonValue)>)
    ensures
        JsonValue::Object(fields).model() == JsonModel::Object(fields.deep_view()),
{
    assert(JsonValue::Object(fields).model()->Object_0 =~= fields.deep_view());
}

/// What a list is.
pub proof fn lemma_list(list: Vec<JsonValue>)
    ensures
        JsonValue::List(list).model() == JsonModel::List(list.deep_view()),
{
    assert(JsonValue::List(list).model()->List_0 =~= list.deep_view());
}

/// The object with one field.
pub fn object_of_one(name: &str, value: JsonValue) -> (r: JsonValue)
    ensures
        r.deep_view() == JsonModel::Object(seq![(name@, value.deep_view())]),
{
    let mut fields: Vec<(String, JsonValue)> = Vec::new();
    fields.push((name.to_owned(), value));
    proof {
        lemma_object(fields);
        assert(fields.deep_view() =~= seq![(name@, value.deep_view())]);
    }
    JsonValue::Object(fields)
}

/// The object with two fields.
pub fn object_of_two(first: &str, value: JsonValue, second: &str, other: JsonValue) -> (r: JsonValue)
    ensures
        r.deep_view() == JsonModel::Object(
            seq![(first@, value.deep_view()), (second@, other.deep_view())],
        ),
{
    let mut fields: Vec<(String, JsonValue)> = Vec::new();
    fields.push((first.to_owned(), value));
    fields.push((second.to_owned(), other));
    proof {
        lemma_object(fields);
        assert(fields.deep_view() =~= seq![
            (first@, value.deep_view()),
            (second@, other.deep_view()),
        ]);
    }
    JsonValue::Object(fields)
}

// ---------------------------------------------------------------------------------------------
// Records
// ---------------------------------------------------------------------------------------------

/// The fields of a record that has values for some of the names, in the order of the names.
pub open spec fn listed(names: Seq<Seq<char>>, values: Seq<Option<JsonModel>>) -> Seq<
    (Seq<char>, JsonModel),
>
    decreases names.len(),
{
    if names.len() == 0 {
        Seq::empty()
    } else {
        let rest = listed(names.drop_last(), values.drop_last());
        match values.last() {
            Some(value) => rest.push((names.last(), value)),
            None => rest,
        }
    }
}

/// A record has a field for a name exactly if it has a value for it, and no other fields.
pub proof fn lemma_listed(names: Seq<Seq<char>>, values: Seq<Option<JsonModel>>)
    requires
        names.no_duplicates(),
        names.len() == values.len(),
    ensures
        distinct_names(listed(names, values)),
        forall|i: int|
            0 <= i < listed(names, values).len() ==> names.contains(
                (#[trigger] listed(names, values)[i]).0,
            ),
        forall|k: int|
            0 <= k < names.len() ==> field_of(listed(names, values), #[trigger] names[k])
                == values[k],
    decreases names.len(),
{
    if names.len() > 0 {
        let fewer = names.drop_last();
        let rest = listed(fewer, values.drop_last());
        let all = listed(names, values);
        let last = names.len() - 1;
        assert(fewer.no_duplicates());
        lemma_listed(fewer, values.drop_last());
        assert forall|i: int| 0 <= i < rest.len() implies fewer.contains((#[trigger] rest[i]).0)
            && names.contains(rest[i].0) && rest[i].0 != names[last] by {
            let k = choose|k: int| 0 <= k < fewer.len() && fewer[k] == rest[i].0;
            assert(names[k] == rest[i].0);
        }
        assert(names.contains(names[last]));
        assert(distinct_names(all));
        lemma_fields(all);
        lemma_fields(rest);
        assert forall|k: int| 0 <= k < names.len() implies field_of(all, #[trigger] names[k])
            == values[k] by {
            if k < last {
                assert(fewer[k] == names[k]);
                assert(field_of(rest, names[k]) == values[k]);
                if values[k] is Some {
                    lemma_field_is_there(rest, names[k]);
                    let i = choose|i: int| 0 <= i < rest.len() && (#[trigger] rest[i]).0 == names[k];
                    assert(all[i] == rest[i]);
                } else {
                    assert forall|i: int| 0 <= i < all.len() implies (#[trigger] all[i]).0
                        != names[k] by {
                        if i < rest.len() {
                            assert(all[i] == rest[i]);
                            assert(field_of(rest, rest[i].0) is Some);
                        }
                    }
                }
            } else if values[last] is Some {
                assert(all[rest.len() as int].0 == names[last]);
            }
        }
    }
}

proof fn lemma_field_is_there(fields: Seq<(Seq<char>, JsonModel)>, name: Seq<char>)
    requires
        field_of(fields, name) is Some,
    ensures
        exists|i: int| 0 <= i < fields.len() && (#[trigger] fields[i]).0 == name,
    decreases fields.len(),
{
    if fields[0].0 != name {
        let rest = fields.drop_first();
        lemma_field_is_there(rest, name);
        let i = choose|i: int| 0 <= i < rest.len() && (#[trigger] rest[i]).0 == name;
        assert(fields[i + 1].0 == name);
    } else {
        assert(fields[0].0 == name);
    }
}

/// The fields of a record that has values for some of the names.
pub fn list_fields(names: &Vec<&'static str>, values: &Vec<Option<JsonValue>>) -> (r: Vec<
    (String, JsonValue),
>)
    requires
        names@.len() == values@.len(),
    ensures
        r.deep_view() == listed(names.deep_view(), values.deep_view()),
{
    let ghost all_names = names.deep_view();
    let ghost all_values = values.deep_view();
    let mut fields: Vec<(String, JsonValue)> = Vec::new();
    let n: usize = names.len();
    let mut i: usize = 0;
    assert(fields.deep_view() =~= Seq::<(Seq<char>, JsonModel)>::empty());
    while i < n
        invariant
            i <= n == names@.len(),
            names@.len() == values@.len(),
            all_names == names.deep_view(),
            all_values == values.deep_view(),
            fields.deep_view() == listed(
                all_names.take(i as int),
                all_values.take(i as int),
            ),
        decreases n - i,
    {
        let ghost before = fields.deep_view();
        assert(all_names.take(i + 1).drop_last() =~= all_names.take(i as int));
        assert(all_values.take(i + 1).drop_last() =~= all_values.take(i as int));
        assert(all_names.take(i + 1).last() == names@[i as int]@);
        assert(all_values.take(i + 1).last() == values@[i as int].deep_view());
        if let Some(value) = &values[i] {
            fields.push((names[i].to_owned(), value.clone()));
            assert(fields.deep_view() =~= before.push((names@[i as int]@, value.deep_view())));
        }
        i += 1;
    }
    assert(all_names.take(n as int) =~= all_names);
    assert(all_values.take(n as int) =~= all_values);
    fields
}

// ---------------------------------------------------------------------------------------------
// Settled values
// ---------------------------------------------------------------------------------------------

/// Whether the names are in their order, and none occurs twice.
pub open spec fn names_in_order(fields: Seq<(Seq<char>, JsonModel)>) -> bool {
    forall|i: int, j: int|
        0 <= i < j < fields.len() ==> text_before((#[trigger] fields[i]).0, (#[trigger] fields[j]).0)
}

/// Fields in the order of their names with one more: it goes to its place, in place of an earlier
/// field of its name.
pub open spec fn with_field(
    fields: Seq<(Seq<char>, JsonModel)>,
    name: Seq<char>,
    value: JsonModel,
) -> Seq<(Seq<char>, JsonModel)>
    decreases fields.len(),
{
    if fields.len() == 0 || text_before(fields.last().0, name) {
        fields.push((name, value))
    } else if fields.last().0 == name {
        fields.drop_last().push((name, value))
    } else {
        with_field(fields.drop_last(), name, value).push(fields.last())
    }
}

/// The fields in the order of their names. Of fields with one name the last stays.
pub open spec fn in_name_order(fields: Seq<(Seq<char>, JsonModel)>) -> Seq<(Seq<char>, JsonModel)>
    decreases fields.len(),
{
    if fields.len() == 0 {
        fields
    } else {
        with_field(in_name_order(fields.drop_last()), fields.last().0, fields.last().1)
    }
}

/// The value with the fields of each object in the order of their names, and each name once.
pub open spec fn settled(value: JsonModel) -> JsonModel
    decreases value,
{
    match value {
        JsonModel::List(list) => JsonModel::List(
            Seq::new(
                list.len(),
                |i: int|
                    if 0 <= i < list.len() {
                        settled(list[i])
                    } else {
                        arbitrary()
                    },
            ),
        ),
        JsonModel::Object(fields) => JsonModel::Object(in_name_order(settled_fields(fields))),
        _ => value,
    }
}

/// The fields with settled values.
pub open spec fn settled_fields(fields: Seq<(Seq<char>, JsonModel)>) -> Seq<(Seq<char>, JsonModel)>
    decreases fields,
{
    Seq::new(
        fields.len(),
        |i: int|
            if 0 <= i < fields.len() {
                (fields[i].0, settled(fields[i].1))
            } else {
                arbitrary()
            },
    )
}

/// Fields in the order of their names stay so with one more, and no other field comes among them.
pub proof fn lemma_with_field(
    fields: Seq<(Seq<char>, JsonModel)>,
    name: Seq<char>,
    value: JsonModel,
)
    requires
        names_in_order(fields),
    ensures
        names_in_order(with_field(fields, name, value)),
        forall|i: int|
            0 <= i < with_field(fields, name, value).len() ==> {
                ||| #[trigger] with_field(fields, name, value)[i] == (name, value)
                ||| fields.contains(with_field(fields, name, value)[i])
            },
    decreases fields.len(),
{
    let r = with_field(fields, name, value);
    if fields.len() == 0 {
    } else if text_before(fields.last().0, name) {
        let last = fields.len() - 1;
        assert forall|i: int, j: int| 0 <= i < j < r.len() implies text_before(
            (#[trigger] r[i]).0,
            (#[trigger] r[j]).0,
        ) by {
            if j == fields.len() && i < last {
                text_order_is_transitive(fields[i].0, fields[last].0, name);
            }
        }
        assert forall|i: int| 0 <= i < r.len() implies {
            ||| #[trigger] r[i] == (name, value)
            ||| fields.contains(r[i])
        } by {
            if i < fields.len() {
                assert(fields[i] == r[i]);
            }
        }
    } else {
        let rest = fields.drop_last();
        let last = fields.len() - 1;
        assert forall|i: int, j: int| 0 <= i < j < rest.len() implies text_before(
            (#[trigger] rest[i]).0,
            (#[trigger] rest[j]).0,
        ) by {
            assert(rest[i] == fields[i] && rest[j] == fields[j]);
        }
        if fields.last().0 == name {
            assert forall|i: int, j: int| 0 <= i < j < r.len() implies text_before(
                (#[trigger] r[i]).0,
                (#[trigger] r[j]).0,
            ) by {
                assert(r[i].0 == fields[i].0 && r[j].0 == fields[j].0);
            }
            assert forall|i: int| 0 <= i < r.len() implies {
                ||| #[trigger] r[i] == (name, value)
                ||| fields.contains(r[i])
            } by {
                if i < last {
                    assert(fields[i] == r[i]);
                }
            }
        } else {
            text_order_is_total(fields.last().0, name);
            lemma_with_field(rest, name, value);
            let inner = with_field(rest, name, value);
            assert forall|i: int| 0 <= i < inner.len() implies text_before(
                (#[trigger] inner[i]).0,
                fields.last().0,
            ) by {
                if inner[i] != (name, value) {
                    let k = choose|k: int| 0 <= k < rest.len() && rest[k] == inner[i];
                    assert(fields[k] == inner[i]);
                    assert(text_before(fields[k].0, fields[last].0));
                }
            }
            assert forall|i: int| 0 <= i < r.len() implies {
                ||| #[trigger] r[i] == (name, value)
                ||| fields.contains(r[i])
            } by {
                if i < inner.len() {
                    assert(r[i] == inner[i]);
                    if inner[i] != (name, value) {
                        let k = choose|k: int| 0 <= k < rest.len() && rest[k] == inner[i];
                        assert(fields[k] == inner[i]);
                    }
                } else {
                    assert(fields[last] == r[i]);
                }
            }
        }
    }
}

/// Fields in the order of their names have them in order, and are among the fields.
pub proof fn lemma_in_name_order(fields: Seq<(Seq<char>, JsonModel)>)
    ensures
        names_in_order(in_name_order(fields)),
        forall|i: int|
            0 <= i < in_name_order(fields).len() ==> fields.contains(
                #[trigger] in_name_order(fields)[i],
            ),
    decreases fields.len(),
{
    if fields.len() > 0 {
        let rest = fields.drop_last();
        lemma_in_name_order(rest);
        lemma_with_field(in_name_order(rest), fields.last().0, fields.last().1);
        let r = in_name_order(fields);
        assert forall|i: int| 0 <= i < r.len() implies fields.contains(#[trigger] r[i]) by {
            if r[i] == (fields.last().0, fields.last().1) {
                assert(fields[fields.len() - 1] == r[i]);
            } else {
                let k = choose|k: int|
                    0 <= k < in_name_order(rest).len() && in_name_order(rest)[k] == r[i];
                let l = choose|l: int| 0 <= l < rest.len() && rest[l] == in_name_order(rest)[k];
                assert(fields[l] == r[i]);
            }
        }
    }
}

/// Fields that are in the order of their names stay as they are.
pub proof fn lemma_stays_in_name_order(fields: Seq<(Seq<char>, JsonModel)>)
    requires
        names_in_order(fields),
    ensures
        in_name_order(fields) == fields,
    decreases fields.len(),
{
    if fields.len() > 0 {
        let rest = fields.drop_last();
        assert forall|i: int, j: int| 0 <= i < j < rest.len() implies text_before(
            (#[trigger] rest[i]).0,
            (#[trigger] rest[j]).0,
        ) by {
            assert(rest[i] == fields[i] && rest[j] == fields[j]);
        }
        lemma_stays_in_name_order(rest);
        if rest.len() > 0 {
            assert(text_before(fields[fields.len() - 2].0, fields[fields.len() - 1].0));
            assert(rest.last() == fields[fields.len() - 2]);
        }
        assert(rest.push((fields.last().0, fields.last().1)) =~= fields);
    }
}

/// What has been settled stays as it is.
pub proof fn settling_is_final(value: JsonModel)
    ensures
        settled(settled(value)) == settled(value),
    decreases value,
{
    match value {
        JsonModel::List(list) => {
            let once = settled(value)->List_0;
            let twice = settled(settled(value))->List_0;
            assert forall|i: int| 0 <= i < once.len() implies twice[i] == once[i] by {
                settling_is_final(list[i]);
            }
            assert(twice =~= once);
        },
        JsonModel::Object(fields) => {
            let each = settled_fields(fields);
            let once = in_name_order(each);
            let again = settled_fields(once);
            lemma_in_name_order(each);
            assert forall|i: int| 0 <= i < once.len() implies #[trigger] again[i] == once[i] by {
                let k = choose|k: int| 0 <= k < each.len() && each[k] == once[i];
                settling_is_final(fields[k].1);
            }
            assert(again =~= once);
            lemma_stays_in_name_order(once);
        },
        _ => {},
    }
}

/// Where each name comes before the next, the names are in order.
pub proof fn lemma_next_in_order(fields: Seq<(Seq<char>, JsonModel)>)
    requires
        forall|i: int|
            0 <= i < fields.len() - 1 ==> text_before(
                (#[trigger] fields[i]).0,
                fields[i + 1].0,
            ),
    ensures
        names_in_order(fields),
{
    assert forall|i: int, j: int| 0 <= i < j < fields.len() implies text_before(
        (#[trigger] fields[i]).0,
        (#[trigger] fields[j]).0,
    ) by {
        lemma_later_in_order(fields, i, j);
    }
}

proof fn lemma_later_in_order(fields: Seq<(Seq<char>, JsonModel)>, i: int, j: int)
    requires
        forall|i: int|
            0 <= i < fields.len() - 1 ==> text_before(
                (#[trigger] fields[i]).0,
                fields[i + 1].0,
            ),
        0 <= i < j < fields.len(),
    ensures
        text_before(fields[i].0, fields[j].0),
    decreases j - i,
{
    if i + 1 < j {
        lemma_later_in_order(fields, i, j - 1);
        assert(text_before(fields[j - 1].0, fields[j - 1 + 1].0));
        text_order_is_transitive(fields[i].0, fields[j - 1].0, fields[j].0);
    }
}

/// An object is settled if its names are in order and its values are settled.
pub proof fn lemma_settled_object(fields: Seq<(Seq<char>, JsonModel)>)
    requires
        names_in_order(fields),
        forall|i: int|
            0 <= i < fields.len() ==> settled((#[trigger] fields[i]).1) == fields[i].1,
    ensures
        settled(JsonModel::Object(fields)) == JsonModel::Object(fields),
{
    assert forall|i: int| 0 <= i < fields.len() implies #[trigger] settled_fields(fields)[i]
        == fields[i] by {
        assert(settled(fields[i].1) == fields[i].1);
    }
    assert(settled_fields(fields) =~= fields);
    lemma_stays_in_name_order(fields);
}

/// A list is settled if its values are settled.
pub proof fn lemma_settled_list(list: Seq<JsonModel>)
    requires
        forall|i: int| 0 <= i < list.len() ==> settled(#[trigger] list[i]) == list[i],
    ensures
        settled(JsonModel::List(list)) == JsonModel::List(list),
{
    assert(settled(JsonModel::List(list))->List_0 =~= list);
}

/// Puts a field among fields that are in the order of their names.
pub fn put_field(fields: &mut Vec<(String, JsonValue)>, name: String, value: JsonValue)
    ensures
        final(fields).deep_view() == with_field(old(fields).deep_view(), name@, value.deep_view()),
{
    let ghost all = fields.deep_view();
    let ghost v = value.deep_view();
    let mut i: usize = fields.len();
    assert(all.take(i as int) =~= all);
    assert(all.skip(i as int) =~= Seq::<(Seq<char>, JsonModel)>::empty());
    assert(with_field(all, name@, v) =~= with_field(all, name@, v) + all.skip(i as int));
    while i > 0 && is_before(name.as_str(), fields[i - 1].0.as_str())
        invariant
            i <= fields@.len(),
            fields.deep_view() == all,
            with_field(all, name@, v) == with_field(all.take(i as int), name@, v) + all.skip(
                i as int,
            ),
        decreases i,
    {
        proof {
            let part = all.take(i as int);
            assert(all[i - 1] == fields@[i - 1].deep_view());
            text_order_is_total(part.last().0, name@);
            assert(part.drop_last() =~= all.take(i - 1));
            assert(with_field(part, name@, v) + all.skip(i as int) =~= with_field(
                all.take(i - 1),
                name@,
                v,
            ) + all.skip(i - 1));
        }
        i -= 1;
    }
    let ghost part = all.take(i as int);
    proof {
        if i > 0 {
            assert(all[i - 1] == fields@[i - 1].deep_view());
            text_order_is_total(part.last().0, name@);
        }
    }
    if i > 0 && same_text(fields[i - 1].0.as_str(), name.as_str()) {
        assert(with_field(part, name@, v) == part.drop_last().push((name@, v)));
        replace_field(fields, i - 1, name, value);
        assert(all.update(i - 1, (name@, v)) =~= part.drop_last().push((name@, v)) + all.skip(
            i as int,
        ));
    } else {
        assert(with_field(part, name@, v) == part.push((name@, v)));
        insert_field(fields, i, name, value);
        assert(all.insert(i as int, (name@, v)) =~= part.push((name@, v)) + all.skip(i as int));
    }
}

fn replace_field(fields: &mut Vec<(String, JsonValue)>, i: usize, name: String, value: JsonValue)
    requires
        i < old(fields)@.len(),
    ensures
        final(fields).deep_view() == old(fields).deep_view().update(
            i as int,
            (name@, value.deep_view()),
        ),
{
    fields.set(i, (name, value));
    assert(fields.deep_view() =~= old(fields).deep_view().update(
        i as int,
        (name@, value.deep_view()),
    ));
}

fn insert_field(fields: &mut Vec<(String, JsonValue)>, i: usize, name: String, value: JsonValue)
    requires
        i <= old(fields)@.len(),
    ensures
        final(fields).deep_view() == old(fields).deep_view().insert(
            i as int,
            (name@, value.deep_view()),
        ),
{
    fields.insert(i, (name, value));
    assert(fields.deep_view() =~= old(fields).deep_view().insert(
        i as int,
        (name@, value.deep_view()),
    ));
}

/// The value with the fields of each object in the order of their names, and each name once.
pub fn settle(value: &JsonValue) -> (r: JsonValue)
    ensures
        r.deep_view() == settled(value.deep_view()),
    decreases value,
{
    match value {
        JsonValue::List(list) => {
            let ghost all = list.deep_view();
            let mut copy: Vec<JsonValue> = Vec::new();
            let n: usize = list.len();
            let mut i: usize = 0;
            while i < n
                invariant
                    *value == JsonValue::List(*list),
                    i <= n == list@.len(),
                    copy@.len() == i,
                    forall|k: int|
                        0 <= k < i ==> (#[trigger] copy@[k]).deep_view() == settled(
                            list@[k].deep_view(),
                        ),
                decreases n - i,
            {
                assert(decreases_to!(*value => value->List_0@[i as int]));
                copy.push(settle(&list[i]));
                i += 1;
            }
            proof {
                lemma_list(*list);
                lemma_list(copy);
                assert(copy.deep_view() =~= settled(value.deep_view())->List_0);
            }
            JsonValue::List(copy)
        },
        JsonValue::Object(fields) => {
            let ghost all = fields.deep_view();
            let ghost each = settled_fields(all);
            let mut copy: Vec<(String, JsonValue)> = Vec::new();
            let n: usize = fields.len();
            let mut i: usize = 0;
            assert(copy.deep_view() =~= in_name_order(each.take(0)));
            while i < n
                invariant
                    *value == JsonValue::Object(*fields),
                    all == fields.deep_view(),
                    each.len() == all.len(),
                    forall|k: int|
                        0 <= k < all.len() ==> #[trigger] each[k] == (all[k].0, settled(all[k].1)),
                    i <= n == fields@.len(),
                    copy.deep_view() == in_name_order(each.take(i as int)),
                decreases n - i,
            {
                assert(decreases_to!(*value => value->Object_0@[i as int].1));
                assert(all[i as int] == fields@[i as int].deep_view());
                assert(each.take(i + 1).drop_last() =~= each.take(i as int));
                assert(each.take(i + 1).last() == each[i as int]);
                put_field(&mut copy, fields[i].0.clone(), settle(&fields[i].1));
                i += 1;
            }
            proof {
                lemma_object(*fields);
                lemma_object(copy);
                assert(each.take(n as int) =~= each);
            }
            JsonValue::Object(copy)
        },
        _ => value.clone(),
    }
}

/// The value of the last field with the name.
pub open spec fn last_of(fields: Seq<(Seq<char>, JsonModel)>, name: Seq<char>) -> Option<JsonModel>
    decreases fields.len(),
{
    if fields.len() == 0 {
        None
    } else if fields.last().0 == name {
        Some(fields.last().1)
    } else {
        last_of(fields.drop_last(), name)
    }
}

proof fn lemma_last_with_field(
    fields: Seq<(Seq<char>, JsonModel)>,
    name: Seq<char>,
    value: JsonModel,
    other: Seq<char>,
)
    ensures
        last_of(with_field(fields, name, value), other) == if other == name {
            Some(value)
        } else {
            last_of(fields, other)
        },
    decreases fields.len(),
{
    let r = with_field(fields, name, value);
    if fields.len() == 0 || text_before(fields.last().0, name) {
        assert(r.drop_last() =~= fields);
    } else if fields.last().0 == name {
        assert(r.drop_last() =~= fields.drop_last());
    } else {
        lemma_last_with_field(fields.drop_last(), name, value, other);
        assert(r.drop_last() =~= with_field(fields.drop_last(), name, value));
    }
}

proof fn lemma_last_in_name_order(fields: Seq<(Seq<char>, JsonModel)>, name: Seq<char>)
    ensures
        last_of(in_name_order(fields), name) == last_of(fields, name),
    decreases fields.len(),
{
    if fields.len() > 0 {
        lemma_last_in_name_order(fields.drop_last(), name);
        lemma_last_with_field(
            in_name_order(fields.drop_last()),
            fields.last().0,
            fields.last().1,
            name,
        );
    }
}

proof fn lemma_last_settled(fields: Seq<(Seq<char>, JsonModel)>, name: Seq<char>)
    ensures
        last_of(settled_fields(fields), name) == match last_of(fields, name) {
            Some(value) => Some(settled(value)),
            None => None,
        },
    decreases fields.len(),
{
    if fields.len() > 0 {
        lemma_last_settled(fields.drop_last(), name);
        assert(settled_fields(fields).drop_last() =~= settled_fields(fields.drop_last()));
    }
}

proof fn lemma_first_is_last(fields: Seq<(Seq<char>, JsonModel)>, name: Seq<char>)
    requires
        distinct_names(fields),
    ensures
        field_of(fields, name) == last_of(fields, name),
    decreases fields.len(),
{
    lemma_fields(fields);
    if fields.len() > 0 {
        let rest = fields.drop_last();
        let last = fields.len() - 1;
        assert(distinct_names(rest));
        lemma_first_is_last(rest, name);
        lemma_fields(rest);
        if fields[last].0 != name {
            if field_of(rest, name) is Some {
                lemma_field_is_there(rest, name);
                let i = choose|i: int| 0 <= i < rest.len() && (#[trigger] rest[i]).0 == name;
                assert(fields[i] == rest[i]);
            } else {
                assert forall|i: int| 0 <= i < fields.len() implies (#[trigger] fields[i]).0
                    != name by {
                    if i < last {
                        assert(rest[i] == fields[i]);
                        assert(field_of(rest, rest[i].0) == Some(rest[i].1));
                    }
                }
            }
        }
    }
}

/// What settling leaves: of an object each name once and in the order of the names, with the settled
/// value of the last field that had the name; of a list its items, settled and in their order; of
/// anything else the same.
pub proof fn settling_keeps_the_last_of_each_name(value: JsonModel, name: Seq<char>, i: int)
    ensures
        match value {
            JsonModel::Object(fields) => {
                &&& settled(value) matches JsonModel::Object(left)
                &&& names_in_order(left)
                &&& field_of(left, name) == match last_of(fields, name) {
                    Some(last) => Some(settled(last)),
                    None => None,
                }
            },
            JsonModel::List(list) => {
                &&& settled(value) matches JsonModel::List(left)
                &&& left.len() == list.len()
                &&& 0 <= i < list.len() ==> left[i] == settled(list[i])
            },
            _ => settled(value) == value,
        },
{
    if let JsonModel::Object(fields) = value {
        let each = settled_fields(fields);
        let left = in_name_order(each);
        lemma_in_name_order(each);
        lemma_last_in_name_order(each, name);
        lemma_last_settled(fields, name);
        assert forall|i: int, j: int| 0 <= i < j < left.len() implies (#[trigger] left[i]).0 != (
        #[trigger] left[j]).0 by {
            text_order_is_total(left[i].0, left[j].0);
        }
        lemma_first_is_last(left, name);
    }
}

} // verus!
