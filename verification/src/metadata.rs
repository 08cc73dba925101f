use crate::labels::Labels;
use crate::strmap::StrMap;
use crate::text::{
    after_char, before_char, chars_of, find_char, has_char, split, split_spec, texts, trim, trim_spec,
};
use vstd::prelude::*;
use vstd::string::*;

verus! {

/// The metadata of what a request brings: a map from field name to value.
pub type Metadata = Labels;

/// The value of a request header.
#[derive(Debug)]
pub enum HeaderText {
    /// A value of visible characters.
    Text(String),
    /// A value that holds other bytes and cannot be read as text.
    Opaque,
}

/// The headers of a request by name, the names in lower case.
pub type Headers = StrMap<HeaderText>;

/// The three headers that name where the data comes from.
#[derive(Clone, Copy, Debug, PartialEq, Eq, Structural)]
pub enum SourceHeader {
    Name,
    Host,
    Category,
}

/// Why the metadata of a request could not be read.
#[derive(Debug)]
pub enum MetadataError {
    /// A header's value cannot be read as text.
    Unreadable(SourceHeader),
    /// An entry of the fields header has no `=`.
    NoEquals(String),
}

/// What an error holds, as mathematical values.
pub enum MetadataErrorView {
    Unreadable(SourceHeader),
    NoEquals(Seq<char>),
}

impl View for MetadataError {
    type V = MetadataErrorView;

    open spec fn view(&self) -> MetadataErrorView {
        match self {
            MetadataError::Unreadable(header) => MetadataErrorView::Unreadable(*header),
            MetadataError::NoEquals(entry) => MetadataErrorView::NoEquals(entry@),
        }
    }
}

impl MetadataError {
    /// The error in words.
    pub fn message(&self) -> (text: String)
        ensures
            text@ == match self@ {
                MetadataErrorView::Unreadable(SourceHeader::Name) => "Couldn't parse X-Sumo-Name header value"@,
                MetadataErrorView::Unreadable(SourceHeader::Host) => "Couldn't parse X-Sumo-Host header value"@,
                MetadataErrorView::Unreadable(SourceHeader::Category) => "Couldn't parse X-Sumo-Category header value"@,
                MetadataErrorView::NoEquals(entry) => "Failed to parse X-Sumo-Fields, no `=` in "@
                    + entry,
            },
    {
        match self {
            MetadataError::Unreadable(SourceHeader::Name) => "Couldn't parse X-Sumo-Name header value".to_owned(),
            MetadataError::Unreadable(SourceHeader::Host) => "Couldn't parse X-Sumo-Host header value".to_owned(),
            MetadataError::Unreadable(SourceHeader::Category) => "Couldn't parse X-Sumo-Category header value".to_owned(),
            MetadataError::NoEquals(entry) => {
                let mut text = "Failed to parse X-Sumo-Fields, no `=` in ".to_owned();
                text.append(entry.as_str());
                text
            },
        }
    }
}

/// The text of each header that can be read as text.
pub open spec fn header_views(headers: Map<Seq<char>, HeaderText>) -> Map<Seq<char>, Option<Seq<char>>> {
    headers.map_values(
        |value: HeaderText|
            match value {
                HeaderText::Text(text) => Some(text@),
                HeaderText::Opaque => None,
            },
    )
}

/// The metadata after one source header has been read into it: a header
/// that is absent changes nothing, one that cannot be read as text is an
/// error, and an earlier error stays.
pub open spec fn with_source(
    so_far: Result<Map<Seq<char>, Seq<char>>, MetadataErrorView>,
    headers: Map<Seq<char>, Option<Seq<char>>>,
    header: Seq<char>,
    field: Seq<char>,
    which: SourceHeader,
) -> Result<Map<Seq<char>, Seq<char>>, MetadataErrorView> {
    match so_far {
        Err(e) => Err(e),
        Ok(fields) => if !headers.contains_key(header) {
            Ok(fields)
        } else {
            match headers[header] {
                Some(text) => Ok(fields.insert(field, text)),
                None => Err(MetadataErrorView::Unreadable(which)),
            }
        },
    }
}

/// The metadata that the source headers of a request give: the fields
/// `_sourceName`, `_sourceHost` and `_sourceCategory` from the headers
/// `x-sumo-name`, `x-sumo-host` and `x-sumo-category`, read in this order.
pub open spec fn common_metadata(headers: Map<Seq<char>, Option<Seq<char>>>) -> Result<
    Map<Seq<char>, Seq<char>>,
    MetadataErrorView,
> {
    with_source(
        with_source(
            with_source(
                Ok(Map::empty()),
                headers,
                "x-sumo-name"@,
                "_sourceName"@,
                SourceHeader::Name,
            ),
            headers,
            "x-sumo-host"@,
            "_sourceHost"@,
            SourceHeader::Host,
        ),
        headers,
        "x-sumo-category"@,
        "_sourceCategory"@,
        SourceHeader::Category,
    )
}

/// What a result holds, as mathematical values.
pub open spec fn outcome_view(outcome: Result<Metadata, MetadataError>) -> Result<
    Map<Seq<char>, Seq<char>>,
    MetadataErrorView,
> {
    match outcome {
        Ok(metadata) => Ok(metadata.text()),
        Err(e) => Err(e@),
    }
}

/// Reads one source header into the metadata.
fn read_source(
    metadata: &mut Metadata,
    headers: &Headers,
    header: &str,
    field: &str,
    which: SourceHeader,
) -> (outcome: Result<(), MetadataError>)
    requires
        old(metadata).wf(),
        headers.wf(),
    ensures
        final(metadata).wf(),
        match outcome {
            Ok(_) => with_source(
                Ok(old(metadata).text()),
                header_views(headers@),
                header@,
                field@,
                which,
            ) == Ok::<Map<Seq<char>, Seq<char>>, MetadataErrorView>(final(metadata).text()),
            Err(e) => with_source(
                Ok(old(metadata).text()),
                header_views(headers@),
                header@,
                field@,
                which,
            ) == Err::<Map<Seq<char>, Seq<char>>, MetadataErrorView>(e@),
        },
{
    match headers.get(header) {
        Some(HeaderText::Text(text)) => {
            metadata.set(field.to_owned(), text.clone());
            Ok(())
        },
        Some(HeaderText::Opaque) => Err(MetadataError::Unreadable(which)),
        None => Ok(()),
    }
}

/// The metadata that the source headers of a request give. A header that
/// is absent gives no field; one that cannot be read as text is an error.
pub fn get_common_metadata_from_headers(headers: &Headers) -> (outcome: Result<
    Metadata,
    MetadataError,
>)
    requires
        headers.wf(),
    ensures
        outcome is Ok ==> outcome->Ok_0.wf(),
        outcome_view(outcome) == common_metadata(header_views(headers@)),
{
    let mut metadata: Metadata = StrMap::new();
    proof {
        assert(metadata.text() =~= Map::<Seq<char>, Seq<char>>::empty());
    }
    match read_source(&mut metadata, headers, "x-sumo-name", "_sourceName", SourceHeader::Name) {
        Ok(_) => {},
        Err(e) => {
            return Err(e);
        },
    }
    match read_source(&mut metadata, headers, "x-sumo-host", "_sourceHost", SourceHeader::Host) {
        Ok(_) => {},
        Err(e) => {
            return Err(e);
        },
    }
    match read_source(
        &mut metadata,
        headers,
        "x-sumo-category",
        "_sourceCategory",
        SourceHeader::Category,
    ) {
        Ok(_) => {},
        Err(e) => {
            return Err(e);
        },
    }
    Ok(metadata)
}

/// The fields that a list of entries gives. An entry is a name, `=` and a
/// value, with white space around it that does not count; the name ends at
/// the first `=`. Of two entries with one name the later one counts. The
/// first entry without `=` is the error.
pub open spec fn fields_of(entries: Seq<Seq<char>>) -> Result<Map<Seq<char>, Seq<char>>, MetadataErrorView>
    decreases entries.len(),
{
    if entries.len() == 0 {
        Ok(Map::empty())
    } else {
        match fields_of(entries.drop_last()) {
            Err(e) => Err(e),
            Ok(fields) => {
                let entry = trim_spec(entries.last());
                if has_char(entry, '=') {
                    Ok(fields.insert(before_char(entry, '='), after_char(entry, '=')))
                } else {
                    Err(MetadataErrorView::NoEquals(entries.last()))
                }
            },
        }
    }
}

/// The fields that the value of the fields header gives: none for a value of
/// white space alone, else those of its entries, which stand between commas.
pub open spec fn sumo_fields(header_value: Seq<char>) -> Result<
    Map<Seq<char>, Seq<char>>,
    MetadataErrorView,
> {
    if trim_spec(header_value).len() == 0 {
        Ok(Map::empty())
    } else {
        fields_of(split_spec(header_value, ','))
    }
}

/// An error among the first entries is the error of the whole list.
pub proof fn lemma_fields_prefix(entries: Seq<Seq<char>>, i: int)
    requires
        0 <= i <= entries.len(),
        fields_of(entries.take(i)) is Err,
    ensures
        fields_of(entries) == fields_of(entries.take(i)),
    decreases entries.len() - i,
{
    if i < entries.len() {
        assert(entries.take(i + 1).drop_last() =~= entries.take(i));
        lemma_fields_prefix(entries, i + 1);
    } else {
        assert(entries.take(i) =~= entries);
    }
}

/// Parses the value of the header `X-Sumo-Fields` into a map from field name
/// to field value.
pub fn parse_sumo_fields_header_value(header_value: &str) -> (outcome: Result<Metadata, MetadataError>)
    ensures
        outcome is Ok ==> outcome->Ok_0.wf(),
        outcome_view(outcome) == sumo_fields(header_value@),
{
    let mut field_values: Metadata = StrMap::new();
    proof {
        assert(field_values.text() =~= Map::<Seq<char>, Seq<char>>::empty());
    }
    if trim(header_value).is_empty() {
        return Ok(field_values);
    }
    let entries = split(header_value, ',');
    let ghost all = texts(entries@);
    let n = entries.len();
    let mut i: usize = 0;
    proof {
        assert(all.take(0) =~= Seq::<Seq<char>>::empty());
    }
    while i < n
        invariant
            n == entries@.len(),
            i <= n,
            all == texts(entries@),
            all == split_spec(header_value@, ','),
            trim_spec(header_value@).len() != 0,
            field_values.wf(),
            fields_of(all.take(i as int)) == Ok::<Map<Seq<char>, Seq<char>>, MetadataErrorView>(
                field_values.text(),
            ),
        decreases n - i,
    {
        let entry = trim(entries[i].as_str());
        let chars = chars_of(entry);
        let eq = find_char(&chars, 0, '=');
        proof {
            assert(all.take(i as int + 1).drop_last() =~= all.take(i as int));
            assert(all.take(i as int + 1).last() == entries@[i as int]@);
            assert(entry@.skip(0) =~= entry@);
        }
        if eq >= chars.len() {
            let bad = entries[i].clone();
            proof {
                assert(!has_char(entry@, '='));
                assert(fields_of(all.take(i as int + 1)) == Err::<
                    Map<Seq<char>, Seq<char>>,
                    MetadataErrorView,
                >(MetadataErrorView::NoEquals(bad@)));
                lemma_fields_prefix(all, i as int + 1);
            }
            return Err(MetadataError::NoEquals(bad));
        }
        let name = entry.substring_char(0, eq).to_owned();
        let value = entry.substring_char(eq + 1, chars.len()).to_owned();
        proof {
            assert(name@ =~= before_char(entry@, '='));
            assert(value@ =~= after_char(entry@, '='));
        }
        field_values.set(name, value);
        i += 1;
    }
    proof {
        assert(all.take(n as int) =~= all);
    }
    Ok(field_values)
}

} // verus!
