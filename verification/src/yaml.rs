//! The configuration file: a YAML document whose `TimePeriods` entry lists
//! named periods, each with a `Date`, `DaysBefore` and `DaysAfter`.
use vstd::prelude::*;
use crate::period::{entries_view, TimePeriod};
use crate::text::text_equals;

verus! {

/// A YAML value, as the library reads it.
#[derive(Debug)]
pub enum YamlNode {
    Null,
    Bool(bool),
    /// A number that fits in an `i64`.
    Int(i64),
    /// Any other number (a float, or an integer beyond `i64`).
    OtherNumber,
    Text(String),
    Sequence(Vec<YamlNode>),
    /// The pairs of a mapping, in the document's order (keys are distinct).
    Mapping(Vec<(YamlNode, YamlNode)>),
    /// A value with a YAML tag (such as `!custom`).
    Tagged(String, Box<YamlNode>),
}

/// The YAML document that `serde_yaml` reads from a text; `None` when the text
/// is not valid YAML.
pub uninterp spec fn yaml_document(text: Seq<char>) -> Option<YamlNode>;

#[verifier::external_type_specification]
#[verifier::external_body]
pub struct ExYamlValue(serde_yaml::Value);

/// Converts a `serde_yaml::Value` into a `YamlNode`, variant for variant (a
/// number by `Number::as_i64`, a tag by its text).
#[verifier::external_body]
fn node_of_value(value: &serde_yaml::Value) -> YamlNode {
    match value {
        serde_yaml::Value::Null => YamlNode::Null,
        serde_yaml::Value::Bool(b) => YamlNode::Bool(*b),
        serde_yaml::Value::Number(n) => n.as_i64().map_or(YamlNode::OtherNumber, YamlNode::Int),
        serde_yaml::Value::String(s) => YamlNode::Text(s.clone()),
        serde_yaml::Value::Sequence(items) => YamlNode::Sequence(items.iter().map(node_of_value).collect()),
        serde_yaml::Value::Mapping(m) => YamlNode::Mapping(
            m.iter().map(|(k, v)| (node_of_value(k), node_of_value(v))).collect(),
        ),
        serde_yaml::Value::Tagged(t) => YamlNode::Tagged(t.tag.to_string(), Box::new(node_of_value(&t.value))),
    }
}

/// Calls `serde_yaml::from_str::<serde_yaml::Value>` and converts the value;
/// the document that comes back is named `yaml_document`.
#[verifier::external_body]
fn parse_yaml(text: &str) -> (r: Option<YamlNode>)
    ensures
        r == yaml_document(text@),
{
    serde_yaml::from_str::<serde_yaml::Value>(text).ok().map(|v| node_of_value(&v))
}

/// A value with its tags removed.
pub open spec fn untagged(node: YamlNode) -> YamlNode
    decreases node,
{
    match node {
        YamlNode::Tagged(_, inner) => untagged(*inner),
        _ => node,
    }
}

/// The fields of a time period read so far: date, days before, days after.
pub type Fields = (Option<Seq<char>>, Option<i64>, Option<i64>);

/// Reads one key and value of a period's mapping: the keys `Date` (a text),
/// `DaysBefore` and `DaysAfter` (integers) may each come once; other text keys
/// are ignored; a key that is not a text, a value of the wrong kind or a
/// repeated field fails.
pub open spec fn read_field(fields: Fields, key: YamlNode, value: YamlNode) -> Option<Fields> {
    match untagged(key) {
        YamlNode::Text(k) => {
            if k@ == "Date"@ {
                match (fields.0, untagged(value)) {
                    (None, YamlNode::Text(t)) => Some((Some(t@), fields.1, fields.2)),
                    _ => None,
                }
            } else if k@ == "DaysBefore"@ {
                match (fields.1, untagged(value)) {
                    (None, YamlNode::Int(n)) => Some((fields.0, Some(n), fields.2)),
                    _ => None,
                }
            } else if k@ == "DaysAfter"@ {
                match (fields.2, untagged(value)) {
                    (None, YamlNode::Int(n)) => Some((fields.0, fields.1, Some(n))),
                    _ => None,
                }
            } else {
                Some(fields)
            }
        },
        _ => None,
    }
}

/// Reads the first `n` pairs of a period's mapping.
pub open spec fn read_fields(pairs: Seq<(YamlNode, YamlNode)>, n: int) -> Option<Fields>
    decreases n,
{
    if n <= 0 {
        Some((None, None, None))
    } else {
        match read_fields(pairs, n - 1) {
            Some(fields) => read_field(fields, pairs[n - 1].0, pairs[n - 1].1),
            None => None,
        }
    }
}

/// The time period (date, days before, days after) that a value describes: a
/// mapping (possibly tagged) with all three fields.
pub open spec fn time_period_of_node(node: YamlNode) -> Option<(Seq<char>, i64, i64)> {
    match untagged(node) {
        YamlNode::Mapping(pairs) => match read_fields(pairs@, pairs@.len() as int) {
            Some((Some(date), Some(before), Some(after))) => Some((date, before, after)),
            _ => None,
        },
        _ => None,
    }
}

/// The first pair, from index `i` on, whose key is a text and whose value
/// describes a time period: the period's name and the period.
pub open spec fn named_period_of_pairs(pairs: Seq<(YamlNode, YamlNode)>, i: int) -> Option<
    (Seq<char>, (Seq<char>, i64, i64)),
>
    decreases pairs.len() - i,
{
    if i < 0 || i >= pairs.len() {
        None
    } else {
        match (untagged(pairs[i].0), time_period_of_node(pairs[i].1)) {
            (YamlNode::Text(name), Some(period)) => Some((name@, period)),
            _ => named_period_of_pairs(pairs, i + 1),
        }
    }
}

/// The named period that an item of the `TimePeriods` list gives, if any.
pub open spec fn named_period_of_item(item: YamlNode) -> Option<
    (Seq<char>, (Seq<char>, i64, i64)),
> {
    match untagged(item) {
        YamlNode::Mapping(pairs) => named_period_of_pairs(pairs@, 0),
        _ => None,
    }
}

/// The named periods that the first `n` items give, in order; items that give
/// none are skipped.
pub open spec fn named_periods_of_items(items: Seq<YamlNode>, n: int) -> Seq<
    (Seq<char>, (Seq<char>, i64, i64)),
>
    decreases n,
{
    if n <= 0 {
        Seq::empty()
    } else {
        let earlier = named_periods_of_items(items, n - 1);
        match named_period_of_item(items[n - 1]) {
            Some(entry) => earlier.push(entry),
            None => earlier,
        }
    }
}

/// The value of the first pair, from index `i` on, whose key is the text `key`
/// (untagged).
pub open spec fn value_of_key(pairs: Seq<(YamlNode, YamlNode)>, key: Seq<char>, i: int) -> Option<
    YamlNode,
>
    decreases pairs.len() - i,
{
    if i < 0 || i >= pairs.len() {
        None
    } else {
        match pairs[i].0 {
            YamlNode::Text(k) if k@ == key => Some(pairs[i].1),
            _ => value_of_key(pairs, key, i + 1),
        }
    }
}

/// The named periods of a configuration document: the items of the sequence
/// under the key `TimePeriods` of its top mapping. `None` when the document
/// has no such sequence.
pub open spec fn periods_of_document(doc: YamlNode) -> Option<
    Seq<(Seq<char>, (Seq<char>, i64, i64))>,
> {
    match untagged(doc) {
        YamlNode::Mapping(pairs) => match value_of_key(pairs@, "TimePeriods"@, 0) {
            Some(list) => match untagged(list) {
                YamlNode::Sequence(items) => Some(named_periods_of_items(items@, items@.len() as int)),
                _ => None,
            },
            None => None,
        },
        _ => None,
    }
}

/// The named periods of a configuration text; `None` when it is not YAML or
/// has no `TimePeriods` sequence.
pub open spec fn periods_of_text(text: Seq<char>) -> Option<Seq<(Seq<char>, (Seq<char>, i64, i64))>> {
    match yaml_document(text) {
        Some(doc) => periods_of_document(doc),
        None => None,
    }
}

/// The value under its tags.
pub fn untag(node: &YamlNode) -> (r: &YamlNode)
    ensures
        *r == untagged(*node),
    decreases node,
{
    match node {
        YamlNode::Tagged(_, inner) => untag(inner),
        _ => node,
    }
}

proof fn lemma_read_fields_failed(pairs: Seq<(YamlNode, YamlNode)>, n: int, m: int)
    requires
        n <= m,
        read_fields(pairs, n) is None,
    ensures
        read_fields(pairs, m) is None,
    decreases m - n,
{
    if n < m {
        lemma_read_fields_failed(pairs, n, m - 1);
    }
}

pub open spec fn fields_view(date: Option<String>, before: Option<i64>, after: Option<i64>) -> Fields {
    (
        match date {
            Some(d) => Some(d@),
            None => None,
        },
        before,
        after,
    )
}

/// Reads one key and value of a period's mapping into the fields read so far;
/// `false` when the pair makes the period fail.
fn read_field_into(
    date: &mut Option<String>,
    before: &mut Option<i64>,
    after: &mut Option<i64>,
    key: &YamlNode,
    value: &YamlNode,
) -> (ok: bool)
    ensures
        ok ==> read_field(fields_view(*old(date), *old(before), *old(after)), *key, *value) == Some(
            fields_view(*final(date), *final(before), *final(after)),
        ),
        !ok ==> read_field(fields_view(*old(date), *old(before), *old(after)), *key, *value) is None,
{
    proof {
        reveal_strlit("Date");
        reveal_strlit("DaysBefore");
        reveal_strlit("DaysAfter");
    }
    let k = match untag(key) {
        YamlNode::Text(k) => k,
        _ => return false,
    };
    if text_equals(k.as_str(), "Date") {
        if date.is_some() {
            return false;
        }
        match untag(value) {
            YamlNode::Text(t) => {
                *date = Some(t.clone());
                true
            },
            _ => false,
        }
    } else if text_equals(k.as_str(), "DaysBefore") {
        if before.is_some() {
            return false;
        }
        match untag(value) {
            YamlNode::Int(n) => {
                *before = Some(*n);
                true
            },
            _ => false,
        }
    } else if text_equals(k.as_str(), "DaysAfter") {
        if after.is_some() {
            return false;
        }
        match untag(value) {
            YamlNode::Int(n) => {
                *after = Some(*n);
                true
            },
            _ => false,
        }
    } else {
        true
    }
}

/// The time period that a value describes, if any.
pub fn time_period_from_node(node: &YamlNode) -> (r: Option<TimePeriod>)
    ensures
        match r {
            Some(p) => time_period_of_node(*node) == Some(p@),
            None => time_period_of_node(*node) is None,
        },
{
    let plain = untag(node);
    let pairs = match plain {
        YamlNode::Mapping(pairs) => pairs,
        _ => return None,
    };
    assert(untagged(*node) == YamlNode::Mapping(*pairs));
    let mut date: Option<String> = None;
    let mut before: Option<i64> = None;
    let mut after: Option<i64> = None;
    let mut i: usize = 0;
    while i < pairs.len()
        invariant
            0 <= i <= pairs@.len(),
            read_fields(pairs@, i as int) == Some(fields_view(date, before, after)),
            untagged(*node) == YamlNode::Mapping(*pairs),
        decreases pairs@.len() - i,
    {
        let pair = &pairs[i];
        let ghost fields = fields_view(date, before, after);
        if !read_field_into(&mut date, &mut before, &mut after, &pair.0, &pair.1) {
            proof {
                assert(read_fields(pairs@, i + 1) == read_field(fields, pair.0, pair.1));
                lemma_read_fields_failed(pairs@, i + 1, pairs@.len() as int);
            }
            return None;
        }
        i = i + 1;
    }
    match (date, before, after) {
        (Some(d), Some(b), Some(a)) => Some(TimePeriod { date: d, days_before: b, days_after: a }),
        _ => None,
    }
}

/// The value of the first pair whose key is the text `key` (untagged).
fn value_of_text_key<'a>(pairs: &'a Vec<(YamlNode, YamlNode)>, key: &str) -> (r: Option<&'a YamlNode>)
    ensures
        match r {
            Some(v) => value_of_key(pairs@, key@, 0) == Some(*v),
            None => value_of_key(pairs@, key@, 0) is None,
        },
{
    let mut i: usize = 0;
    while i < pairs.len()
        invariant
            0 <= i <= pairs@.len(),
            value_of_key(pairs@, key@, 0) == value_of_key(pairs@, key@, i as int),
        decreases pairs@.len() - i,
    {
        if let YamlNode::Text(k) = &pairs[i].0 {
            if text_equals(k.as_str(), key) {
                return Some(&pairs[i].1);
            }
        }
        i = i + 1;
    }
    None
}

/// The named period that the pairs of a list item give, if any.
fn named_period_from_pairs(pairs: &Vec<(YamlNode, YamlNode)>) -> (r: Option<(String, TimePeriod)>)
    ensures
        match r {
            Some(e) => named_period_of_pairs(pairs@, 0) == Some((e.0@, e.1@)),
            None => named_period_of_pairs(pairs@, 0) is None,
        },
{
    let mut i: usize = 0;
    while i < pairs.len()
        invariant
            0 <= i <= pairs@.len(),
            named_period_of_pairs(pairs@, 0) == named_period_of_pairs(pairs@, i as int),
        decreases pairs@.len() - i,
    {
        let (key, value) = &pairs[i];
        if let YamlNode::Text(name) = untag(key) {
            if let Some(period) = time_period_from_node(value) {
                return Some((name.clone(), period));
            }
        }
        i = i + 1;
    }
    None
}

/// The named periods of a configuration document, in order; `None` when the
/// document has no `TimePeriods` sequence.
pub fn periods_from_document(doc: &YamlNode) -> (r: Option<Vec<(String, TimePeriod)>>)
    ensures
        match r {
            Some(v) => periods_of_document(*doc) == Some(entries_view(v@)),
            None => periods_of_document(*doc) is None,
        },
{
    let pairs = match untag(doc) {
        YamlNode::Mapping(pairs) => pairs,
        _ => return None,
    };
    let items = match value_of_text_key(pairs, "TimePeriods") {
        Some(value) => match untag(value) {
            YamlNode::Sequence(items) => items,
            _ => return None,
        },
        None => return None,
    };
    let mut out: Vec<(String, TimePeriod)> = Vec::new();
    let mut j: usize = 0;
    while j < items.len()
        invariant
            0 <= j <= items@.len(),
            entries_view(out@) == named_periods_of_items(items@, j as int),
        decreases items@.len() - j,
    {
        let item = untag(&items[j]);
        if let YamlNode::Mapping(item_pairs) = item {
            if let Some(entry) = named_period_from_pairs(item_pairs) {
                out.push(entry);
            }
        }
        j = j + 1;
    }
    Some(out)
}

/// The time period that a YAML text describes on its own (a mapping with
/// `Date`, `DaysBefore` and `DaysAfter`), read as the entries of a
/// configuration file are read.
pub fn parse_time_period(text: &str) -> (r: Option<TimePeriod>)
    ensures
        match r {
            Some(p) => yaml_document(text@) matches Some(doc) && time_period_of_node(doc) == Some(
                p@,
            ),
            None => yaml_document(text@) matches Some(doc) ==> time_period_of_node(doc) is None,
        },
{
    match parse_yaml(text) {
        Some(doc) => time_period_from_node(&doc),
        None => None,
    }
}

/// The named periods of a configuration text, in order; `None` when the text
/// is not YAML or has no `TimePeriods` sequence.
pub fn load_yaml_file_inner(content: &str) -> (r: Option<Vec<(String, TimePeriod)>>)
    ensures
        match r {
            Some(v) => periods_of_text(content@) == Some(entries_view(v@)),
            None => periods_of_text(content@) is None,
        },
{
    match parse_yaml(content) {
        Some(doc) => periods_from_document(&doc),
        None => None,
    }
}

/// The named periods of a configuration text, in order; none when the text is
/// not YAML or has no `TimePeriods` sequence.
pub fn load_yaml_file(content: &str) -> (r: Vec<(String, TimePeriod)>)
    ensures
        entries_view(r@) == match periods_of_text(content@) {
            Some(entries) => entries,
            None => Seq::empty(),
        },
{
    match load_yaml_file_inner(content) {
        Some(entries) => entries,
        None => Vec::new(),
    }
}

/// The configuration that the program writes when a user has none.
pub const DEFAULT_CONFIG_YAML: &'static str = "TimePeriods:
  - MothersDay:
      Date: The second Sunday of May
      DaysBefore: 3
      DaysAfter: 1
      Comment: Mother's Day
  - FathersDay:
      Date: The third Sunday of June
      DaysBefore: 3
      DaysAfter: 1
      Comment: Father's Day
  - EasterPeriod:
      Date: Easter
      DaysBefore: 5
      DaysAfter: 2
  - Thanksgiving:
      Date: Thanksgiving
      DaysBefore: 3
      DaysAfter: 2
  - LaborWeek:
      Date: LaborDay
      DaysBefore: 1
      DaysAfter: 2
";

/// The named periods of `DEFAULT_CONFIG_YAML`, in order.
pub open spec fn default_entries() -> Seq<(Seq<char>, (Seq<char>, i64, i64))> {
    seq![
        ("MothersDay"@, ("The second Sunday of May"@, 3i64, 1i64)),
        ("FathersDay"@, ("The third Sunday of June"@, 3i64, 1i64)),
        ("EasterPeriod"@, ("Easter"@, 5i64, 2i64)),
        ("Thanksgiving"@, ("Thanksgiving"@, 3i64, 2i64)),
        ("LaborWeek"@, ("LaborDay"@, 1i64, 2i64)),
    ]
}

pub open spec fn is_text(node: YamlNode, text: Seq<char>) -> bool {
    node matches YamlNode::Text(s) && s@ == text
}

/// A mapping with `Date`, `DaysBefore` and `DaysAfter` in that order, and
/// possibly a text `Comment` after them: how the configuration writes a period.
pub open spec fn describes_period(node: YamlNode, period: (Seq<char>, i64, i64)) -> bool {
    &&& node matches YamlNode::Mapping(pairs)
    &&& pairs@.len() == 3 || (pairs@.len() == 4 && is_text(pairs@[3].0, "Comment"@)
        && pairs@[3].1 is Text)
    &&& is_text(pairs@[0].0, "Date"@) && is_text(pairs@[0].1, period.0)
    &&& is_text(pairs@[1].0, "DaysBefore"@) && pairs@[1].1 == YamlNode::Int(period.1)
    &&& is_text(pairs@[2].0, "DaysAfter"@) && pairs@[2].1 == YamlNode::Int(period.2)
}

/// A list item that maps the entry's name to its period.
pub open spec fn describes_entry(item: YamlNode, entry: (Seq<char>, (Seq<char>, i64, i64))) -> bool {
    &&& item matches YamlNode::Mapping(pairs)
    &&& pairs@.len() == 1
    &&& is_text(pairs@[0].0, entry.0)
    &&& describes_period(pairs@[0].1, entry.1)
}

/// A document whose only key `TimePeriods` lists the entries, one item each:
/// the shape of `DEFAULT_CONFIG_YAML`.
pub open spec fn describes_config(doc: YamlNode, entries: Seq<(Seq<char>, (Seq<char>, i64, i64))>) -> bool {
    &&& doc matches YamlNode::Mapping(pairs)
    &&& pairs@.len() == 1
    &&& is_text(pairs@[0].0, "TimePeriods"@)
    &&& pairs@[0].1 matches YamlNode::Sequence(items)
    &&& items@.len() == entries.len()
    &&& forall|i: int| 0 <= i < entries.len() ==> describes_entry(#[trigger] items@[i], entries[i])
}

proof fn lemma_period_reads_back(node: YamlNode, period: (Seq<char>, i64, i64))
    requires
        describes_period(node, period),
    ensures
        time_period_of_node(node) == Some(period),
{
    reveal_strlit("Date");
    reveal_strlit("DaysBefore");
    reveal_strlit("DaysAfter");
    reveal_strlit("Comment");
    let pairs = node->Mapping_0@;
    assert(untagged(node) == node);
    assert(untagged(pairs[0].0) == pairs[0].0 && untagged(pairs[0].1) == pairs[0].1);
    assert(untagged(pairs[1].0) == pairs[1].0 && untagged(pairs[1].1) == pairs[1].1);
    assert(untagged(pairs[2].0) == pairs[2].0 && untagged(pairs[2].1) == pairs[2].1);
    assert(read_fields(pairs, 0) == Some((None::<Seq<char>>, None::<i64>, None::<i64>)));
    assert(read_field((None, None, None), pairs[0].0, pairs[0].1) == Some(
        (Some(period.0), None::<i64>, None::<i64>),
    ));
    assert(read_fields(pairs, 1) == Some((Some(period.0), None::<i64>, None::<i64>)));
    assert("Date"@.len() == 4 && "DaysBefore"@.len() == 10 && "DaysAfter"@.len() == 9
        && "Comment"@.len() == 7);
    assert("DaysBefore"@ != "Date"@ && "DaysAfter"@ != "Date"@ && "DaysAfter"@ != "DaysBefore"@);
    assert("Comment"@ != "Date"@ && "Comment"@ != "DaysBefore"@ && "Comment"@ != "DaysAfter"@);
    assert(read_field((Some(period.0), None, None), pairs[1].0, pairs[1].1) == Some(
        (Some(period.0), Some(period.1), None::<i64>),
    ));
    assert(read_fields(pairs, 2) == Some((Some(period.0), Some(period.1), None::<i64>)));
    assert(read_field((Some(period.0), Some(period.1), None), pairs[2].0, pairs[2].1) == Some(
        (Some(period.0), Some(period.1), Some(period.2)),
    ));
    assert(read_fields(pairs, 3) == Some((Some(period.0), Some(period.1), Some(period.2))));
    if pairs.len() == 4 {
        assert(untagged(pairs[3].0) == pairs[3].0);
        assert(read_fields(pairs, 4) == read_fields(pairs, 3));
    }
}

proof fn lemma_entry_reads_back(item: YamlNode, entry: (Seq<char>, (Seq<char>, i64, i64)))
    requires
        describes_entry(item, entry),
    ensures
        named_period_of_item(item) == Some(entry),
{
    let pairs = item->Mapping_0@;
    lemma_period_reads_back(pairs[0].1, entry.1);
    assert(untagged(item) == item);
    assert(untagged(pairs[0].0) == pairs[0].0);
}

proof fn lemma_items_read_back(
    items: Seq<YamlNode>,
    entries: Seq<(Seq<char>, (Seq<char>, i64, i64))>,
    n: int,
)
    requires
        0 <= n <= items.len(),
        items.len() == entries.len(),
        forall|i: int| 0 <= i < entries.len() ==> describes_entry(#[trigger] items[i], entries[i]),
    ensures
        named_periods_of_items(items, n) == entries.take(n),
    decreases n,
{
    if n > 0 {
        lemma_items_read_back(items, entries, n - 1);
        lemma_entry_reads_back(items[n - 1], entries[n - 1]);
        assert(entries.take(n) == entries.take(n - 1).push(entries[n - 1]));
    }
}

/// A configuration written in the shape of the default one (a `TimePeriods`
/// list of one-key mappings holding `Date`, `DaysBefore`, `DaysAfter` and
/// possibly a `Comment`) reads back as exactly the entries written, in order.
pub proof fn lemma_config_reads_back(doc: YamlNode, entries: Seq<(Seq<char>, (Seq<char>, i64, i64))>)
    requires
        describes_config(doc, entries),
    ensures
        periods_of_document(doc) == Some(entries),
{
    reveal_strlit("TimePeriods");
    let pairs = doc->Mapping_0@;
    let items = pairs[0].1->Sequence_0@;
    assert(untagged(doc) == doc);
    assert(untagged(pairs[0].1) == pairs[0].1);
    assert(value_of_key(pairs, "TimePeriods"@, 0) == Some(pairs[0].1));
    lemma_items_read_back(items, entries, items.len() as int);
    assert(entries.take(entries.len() as int) == entries);
}

/// The document of the default configuration reads back as its five entries:
/// MothersDay, FathersDay, EasterPeriod, Thanksgiving and LaborWeek, with
/// their dates and windows.
pub proof fn lemma_default_config_reads_back(doc: YamlNode)
    requires
        describes_config(doc, default_entries()),
    ensures
        periods_of_document(doc) == Some(default_entries()),
{
    lemma_config_reads_back(doc, default_entries());
}

/// The text key of a pair, once untagged.
pub open spec fn key_of(pair: (YamlNode, YamlNode)) -> Option<Seq<char>> {
    match untagged(pair.0) {
        YamlNode::Text(k) => Some(k@),
        _ => None,
    }
}

/// A pair a period's mapping may hold: a text key, with a text under `Date`
/// and integers under `DaysBefore` and `DaysAfter`.
pub open spec fn pair_readable(pair: (YamlNode, YamlNode)) -> bool {
    match key_of(pair) {
        Some(k) => {
            &&& k == "Date"@ ==> untagged(pair.1) is Text
            &&& k == "DaysBefore"@ ==> untagged(pair.1) is Int
            &&& k == "DaysAfter"@ ==> untagged(pair.1) is Int
        },
        None => false,
    }
}

/// Among the first `n` pairs, the key `name` occurs at most once.
pub open spec fn key_at_most_once(pairs: Seq<(YamlNode, YamlNode)>, n: int, name: Seq<char>) -> bool {
    forall|i: int, j: int|
        #![trigger key_of(pairs[i]), key_of(pairs[j])]
        0 <= i < n && 0 <= j < n && key_of(pairs[i]) == Some(name) && key_of(pairs[j]) == Some(
            name,
        ) ==> i == j
}

/// Among the first `n` pairs, the key `name` occurs.
pub open spec fn key_present(pairs: Seq<(YamlNode, YamlNode)>, n: int, name: Seq<char>) -> bool {
    exists|i: int| 0 <= i < n && #[trigger] key_of(pairs[i]) == Some(name)
}

/// Among the first `n` pairs, the key `name` holds the text `t`.
pub open spec fn text_under(pairs: Seq<(YamlNode, YamlNode)>, n: int, name: Seq<char>, t: Seq<char>) -> bool {
    exists|i: int|
        0 <= i < n && #[trigger] key_of(pairs[i]) == Some(name) && is_text(untagged(pairs[i].1), t)
}

/// Among the first `n` pairs, the key `name` holds the integer `v`.
pub open spec fn int_under(pairs: Seq<(YamlNode, YamlNode)>, n: int, name: Seq<char>, v: i64) -> bool {
    exists|i: int|
        0 <= i < n && #[trigger] key_of(pairs[i]) == Some(name) && untagged(pairs[i].1)
            == YamlNode::Int(v)
}

/// The first `n` pairs can be read as part of a period: every pair readable,
/// and none of the three fields given twice.
pub open spec fn pairs_readable(pairs: Seq<(YamlNode, YamlNode)>, n: int) -> bool {
    &&& forall|i: int| 0 <= i < n ==> pair_readable(#[trigger] pairs[i])
    &&& key_at_most_once(pairs, n, "Date"@)
    &&& key_at_most_once(pairs, n, "DaysBefore"@)
    &&& key_at_most_once(pairs, n, "DaysAfter"@)
}

/// The fields read from the first `n` pairs are those the pairs hold.
pub open spec fn fields_agree(pairs: Seq<(YamlNode, YamlNode)>, n: int, fields: Fields) -> bool {
    &&& match fields.0 {
        Some(t) => text_under(pairs, n, "Date"@, t),
        None => !key_present(pairs, n, "Date"@),
    }
    &&& match fields.1 {
        Some(v) => int_under(pairs, n, "DaysBefore"@, v),
        None => !key_present(pairs, n, "DaysBefore"@),
    }
    &&& match fields.2 {
        Some(v) => int_under(pairs, n, "DaysAfter"@, v),
        None => !key_present(pairs, n, "DaysAfter"@),
    }
}

proof fn lemma_field_names_differ()
    ensures
        "Date"@ != "DaysBefore"@,
        "Date"@ != "DaysAfter"@,
        "DaysBefore"@ != "DaysAfter"@,
{
    reveal_strlit("Date");
    reveal_strlit("DaysBefore");
    reveal_strlit("DaysAfter");
    assert("Date"@.len() == 4 && "DaysBefore"@.len() == 10 && "DaysAfter"@.len() == 9);
}

/// Reading the pairs one by one succeeds exactly when they are readable and
/// no field repeats, and then gives the values the pairs hold, whatever their order.
proof fn lemma_read_fields_order_free(pairs: Seq<(YamlNode, YamlNode)>, n: int)
    requires
        0 <= n <= pairs.len(),
    ensures
        read_fields(pairs, n) is Some <==> pairs_readable(pairs, n),
        read_fields(pairs, n) matches Some(f) ==> fields_agree(pairs, n, f),
    decreases n,
{
    lemma_field_names_differ();
    if n > 0 {
        lemma_read_fields_order_free(pairs, n - 1);
        let p = pairs[n - 1];
        let last = n - 1;
        if !pairs_readable(pairs, n - 1) {
            assert(!pairs_readable(pairs, n));
        } else {
            let f = read_fields(pairs, n - 1).unwrap();
            assert(key_present(pairs, n - 1, "Date"@) ==> key_present(pairs, n, "Date"@));
            match key_of(p) {
                None => {
                    assert(!pair_readable(pairs[last]));
                },
                Some(k) => {
                    if k == "Date"@ {
                        if f.0 is Some {
                            let i = choose|i: int|
                                0 <= i < n - 1 && #[trigger] key_of(pairs[i]) == Some("Date"@);
                            assert(key_of(pairs[i]) == Some("Date"@) && key_of(pairs[last])
                                == Some("Date"@));
                            assert(!key_at_most_once(pairs, n, "Date"@));
                        } else if untagged(p.1) is Text {
                            assert(text_under(pairs, n, "Date"@, untagged(p.1)->Text_0@)) by {
                                assert(key_of(pairs[last]) == Some("Date"@));
                            }
                            assert(pairs_readable(pairs, n));
                            assert(fields_agree(pairs, n, read_fields(pairs, n).unwrap()));
                        } else {
                            assert(!pair_readable(pairs[last]));
                        }
                    } else if k == "DaysBefore"@ {
                        if f.1 is Some {
                            let i = choose|i: int|
                                0 <= i < n - 1 && #[trigger] key_of(pairs[i]) == Some("DaysBefore"@);
                            assert(key_of(pairs[i]) == Some("DaysBefore"@) && key_of(pairs[last])
                                == Some("DaysBefore"@));
                            assert(!key_at_most_once(pairs, n, "DaysBefore"@));
                        } else if untagged(p.1) is Int {
                            assert(int_under(pairs, n, "DaysBefore"@, untagged(p.1)->Int_0)) by {
                                assert(key_of(pairs[last]) == Some("DaysBefore"@));
                            }
                            assert(pairs_readable(pairs, n));
                            assert(fields_agree(pairs, n, read_fields(pairs, n).unwrap()));
                        } else {
                            assert(!pair_readable(pairs[last]));
                        }
                    } else if k == "DaysAfter"@ {
                        if f.2 is Some {
                            let i = choose|i: int|
                                0 <= i < n - 1 && #[trigger] key_of(pairs[i]) == Some("DaysAfter"@);
                            assert(key_of(pairs[i]) == Some("DaysAfter"@) && key_of(pairs[last])
                                == Some("DaysAfter"@));
                            assert(!key_at_most_once(pairs, n, "DaysAfter"@));
                        } else if untagged(p.1) is Int {
                            assert(int_under(pairs, n, "DaysAfter"@, untagged(p.1)->Int_0)) by {
                                assert(key_of(pairs[last]) == Some("DaysAfter"@));
                            }
                            assert(pairs_readable(pairs, n));
                            assert(fields_agree(pairs, n, read_fields(pairs, n).unwrap()));
                        } else {
                            assert(!pair_readable(pairs[last]));
                        }
                    } else {
                        assert(pairs_readable(pairs, n));
                        assert(fields_agree(pairs, n, f));
                    }
                },
            }
        }
    }
}

/// The period a mapping describes does not depend on the order of its pairs:
/// a value describes the period (date, before, after) exactly when it is a
/// mapping (possibly tagged) whose keys are all texts, whose `Date`,
/// `DaysBefore` and `DaysAfter` each occur once, wherever they stand, holding
/// the text `date` and the integers `before` and `after`, and whose other keys
/// hold anything.
pub proof fn lemma_period_in_any_order(node: YamlNode, period: (Seq<char>, i64, i64))
    ensures
        time_period_of_node(node) == Some(period) <==> (untagged(node) matches YamlNode::Mapping(
            pairs,
        ) && pairs_readable(pairs@, pairs@.len() as int) && text_under(
            pairs@,
            pairs@.len() as int,
            "Date"@,
            period.0,
        ) && int_under(pairs@, pairs@.len() as int, "DaysBefore"@, period.1) && int_under(
            pairs@,
            pairs@.len() as int,
            "DaysAfter"@,
            period.2,
        )),
{
    if let YamlNode::Mapping(pairs) = untagged(node) {
        let ps = pairs@;
        let n = ps.len() as int;
        lemma_read_fields_order_free(ps, n);
        if pairs_readable(ps, n) && text_under(ps, n, "Date"@, period.0) && int_under(
            ps,
            n,
            "DaysBefore"@,
            period.1,
        ) && int_under(ps, n, "DaysAfter"@, period.2) {
            let f = read_fields(ps, n).unwrap();
            let i = choose|i: int|
                0 <= i < n && #[trigger] key_of(ps[i]) == Some("Date"@) && is_text(untagged(ps[i].1), period.0);
            assert(key_present(ps, n, "Date"@));
            let i2 = choose|i: int|
                0 <= i < n && #[trigger] key_of(ps[i]) == Some("Date"@) && is_text(untagged(ps[i].1), f.0.unwrap());
            assert(key_of(ps[i]) == Some("Date"@) && key_of(ps[i2]) == Some("Date"@));
            let j = choose|i: int|
                0 <= i < n && #[trigger] key_of(ps[i]) == Some("DaysBefore"@) && untagged(ps[i].1)
                    == YamlNode::Int(period.1);
            assert(key_present(ps, n, "DaysBefore"@));
            let j2 = choose|i: int|
                0 <= i < n && #[trigger] key_of(ps[i]) == Some("DaysBefore"@) && untagged(ps[i].1)
                    == YamlNode::Int(f.1.unwrap());
            assert(key_of(ps[j]) == Some("DaysBefore"@) && key_of(ps[j2]) == Some("DaysBefore"@));
            let k = choose|i: int|
                0 <= i < n && #[trigger] key_of(ps[i]) == Some("DaysAfter"@) && untagged(ps[i].1)
                    == YamlNode::Int(period.2);
            assert(key_present(ps, n, "DaysAfter"@));
            let k2 = choose|i: int|
                0 <= i < n && #[trigger] key_of(ps[i]) == Some("DaysAfter"@) && untagged(ps[i].1)
                    == YamlNode::Int(f.2.unwrap());
            assert(key_of(ps[k]) == Some("DaysAfter"@) && key_of(ps[k2]) == Some("DaysAfter"@));
        }
    }
}

/// The value found for a key is the value of the first pair whose key is that
/// text, wherever it stands; pairs with other keys before it do not matter.
pub proof fn lemma_value_of_key_finds_the_key(
    pairs: Seq<(YamlNode, YamlNode)>,
    key: Seq<char>,
    j: int,
)
    requires
        0 <= j < pairs.len(),
        is_text(pairs[j].0, key),
        forall|i: int| 0 <= i < j ==> !is_text(#[trigger] pairs[i].0, key),
    ensures
        value_of_key(pairs, key, 0) == Some(pairs[j].1),
{
    lemma_value_of_key_from(pairs, key, j, 0);
}

proof fn lemma_value_of_key_from(pairs: Seq<(YamlNode, YamlNode)>, key: Seq<char>, j: int, i: int)
    requires
        0 <= i <= j < pairs.len(),
        is_text(pairs[j].0, key),
        forall|k: int| 0 <= k < j ==> !is_text(#[trigger] pairs[k].0, key),
    ensures
        value_of_key(pairs, key, i) == Some(pairs[j].1),
    decreases j - i,
{
    if i < j {
        lemma_value_of_key_from(pairs, key, j, i + 1);
        assert(!is_text(pairs[i].0, key));
    }
}

/// No pair has the key: nothing is found.
pub proof fn lemma_value_of_key_missing(pairs: Seq<(YamlNode, YamlNode)>, key: Seq<char>, i: int)
    requires
        0 <= i,
        forall|k: int| 0 <= k < pairs.len() ==> !is_text(#[trigger] pairs[k].0, key),
    ensures
        value_of_key(pairs, key, i) is None,
    decreases pairs.len() - i,
{
    if i < pairs.len() {
        assert(!is_text(pairs[i].0, key));
        lemma_value_of_key_missing(pairs, key, i + 1);
    }
}

/// A configuration's periods are read from the `TimePeriods` key wherever it
/// stands among the document's keys: pairs with other keys before it change
/// nothing.
pub proof fn lemma_time_periods_found_anywhere(doc: YamlNode, j: int)
    requires
        untagged(doc) matches YamlNode::Mapping(pairs) && 0 <= j < pairs@.len() && is_text(
            pairs@[j].0,
            "TimePeriods"@,
        ) && forall|i: int| 0 <= i < j ==> !is_text(#[trigger] pairs@[i].0, "TimePeriods"@),
    ensures
        untagged(doc) matches YamlNode::Mapping(pairs) && periods_of_document(doc) == match untagged(
            pairs@[j].1,
        ) {
            YamlNode::Sequence(items) => Some(named_periods_of_items(items@, items@.len() as int)),
            _ => None,
        },
{
    let pairs = untagged(doc)->Mapping_0@;
    lemma_value_of_key_finds_the_key(pairs, "TimePeriods"@, j);
}

/// Without a `TimePeriods` key a configuration has no period list.
pub proof fn lemma_time_periods_missing(doc: YamlNode)
    requires
        untagged(doc) matches YamlNode::Mapping(pairs) && forall|i: int|
            0 <= i < pairs@.len() ==> !is_text(#[trigger] pairs@[i].0, "TimePeriods"@),
    ensures
        periods_of_document(doc) is None,
{
    let pairs = untagged(doc)->Mapping_0@;
    lemma_value_of_key_missing(pairs, "TimePeriods"@, 0);
}

/// A list item's named period comes from its first pair whose key is a text
/// and whose value describes a period: earlier pairs that do not qualify are
/// passed over, later pairs do not matter.
pub proof fn lemma_item_takes_first_period(pairs: Seq<(YamlNode, YamlNode)>, j: int)
    requires
        0 <= j < pairs.len(),
        key_of(pairs[j]) is Some,
        time_period_of_node(pairs[j].1) is Some,
        forall|i: int|
            0 <= i < j ==> #[trigger] key_of(pairs[i]) is None || time_period_of_node(pairs[i].1) is None,
    ensures
        named_period_of_pairs(pairs, 0) == Some(
            (key_of(pairs[j]).unwrap(), time_period_of_node(pairs[j].1).unwrap()),
        ),
{
    lemma_item_takes_first_period_from(pairs, j, 0);
}

proof fn lemma_item_takes_first_period_from(pairs: Seq<(YamlNode, YamlNode)>, j: int, i: int)
    requires
        0 <= i <= j < pairs.len(),
        key_of(pairs[j]) is Some,
        time_period_of_node(pairs[j].1) is Some,
        forall|k: int|
            0 <= k < j ==> #[trigger] key_of(pairs[k]) is None || time_period_of_node(pairs[k].1) is None,
    ensures
        named_period_of_pairs(pairs, i) == Some(
            (key_of(pairs[j]).unwrap(), time_period_of_node(pairs[j].1).unwrap()),
        ),
    decreases j - i,
{
    if i < j {
        lemma_item_takes_first_period_from(pairs, j, i + 1);
        assert(key_of(pairs[i]) is None || time_period_of_node(pairs[i].1) is None);
    }
}

/// A list item none of whose pairs has a text key and a period gives none.
pub proof fn lemma_item_without_period(pairs: Seq<(YamlNode, YamlNode)>, i: int)
    requires
        0 <= i,
        forall|k: int|
            0 <= k < pairs.len() ==> #[trigger] key_of(pairs[k]) is None || time_period_of_node(
                pairs[k].1,
            ) is None,
    ensures
        named_period_of_pairs(pairs, i) is None,
    decreases pairs.len() - i,
{
    if i < pairs.len() {
        assert(key_of(pairs[i]) is None || time_period_of_node(pairs[i].1) is None);
        lemma_item_without_period(pairs, i + 1);
    }
}

/// The periods of a list keep the order of its items, one per item that gives
/// one: there are never more than the items, and when every item gives a
/// period they are exactly those periods, in order.
pub proof fn lemma_items_in_order(items: Seq<YamlNode>, n: int)
    requires
        0 <= n <= items.len(),
    ensures
        named_periods_of_items(items, n).len() <= n,
        (forall|i: int| 0 <= i < n ==> #[trigger] named_period_of_item(items[i]) is Some) ==> {
            &&& named_periods_of_items(items, n).len() == n
            &&& forall|i: int|
                0 <= i < n ==> named_periods_of_items(items, n)[i] == named_period_of_item(
                    #[trigger] items[i],
                ).unwrap()
        },
    decreases n,
{
    if n > 0 {
        lemma_items_in_order(items, n - 1);
        if forall|i: int| 0 <= i < n ==> #[trigger] named_period_of_item(items[i]) is Some {
            assert(named_period_of_item(items[n - 1]) is Some);
            assert forall|i: int| 0 <= i < n - 1 implies #[trigger] named_period_of_item(items[i]) is Some by {
                assert(named_period_of_item(items[i]) is Some);
            }
        }
    }
}

} // verus!
