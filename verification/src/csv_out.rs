//! CSV output. The summary is written through csv's `Writer`; its behaviour
//! on the records this library writes — plain ASCII fields that need no
//! quoting — is stated here, over a spec of the produced text.

use vstd::prelude::*;

verus! {

use crate::digits::{bool_text, dec_digits, digit_char, frac_chars, render_amount, render_magnitude};

/// A character that csv's default writer copies verbatim: ASCII and none of
/// the delimiter, the quote, or a record terminator.
pub open spec fn plain_char(c: char) -> bool {
    &&& (c as int) < 128
    &&& c != ','
    &&& c != '"'
    &&& c != '\n'
    &&& c != '\r'
}

/// A nonempty field of plain characters; csv writes it without quoting.
pub open spec fn plain_field(s: Seq<char>) -> bool {
    &&& s.len() > 0
    &&& forall|i: int| 0 <= i < s.len() ==> plain_char(#[trigger] s[i])
}

/// A record of exactly five plain fields — every record of the summary.
pub open spec fn plain_record(fields: Seq<Seq<char>>) -> bool {
    &&& fields.len() == 5
    &&& forall|i: int| 0 <= i < fields.len() ==> plain_field(#[trigger] fields[i])
}

/// The text csv makes of one record of plain fields: the fields joined with
/// commas, then a newline.
pub open spec fn encode_record(fields: Seq<Seq<char>>) -> Seq<char>
    decreases fields.len(),
{
    if fields.len() == 0 {
        seq!['\n']
    } else if fields.len() == 1 {
        fields[0] + seq!['\n']
    } else {
        fields[0] + seq![','] + encode_record(fields.drop_first())
    }
}

/// csv's writer over an in-memory buffer. The writer type's `io::Write`
/// bound cannot be stated to the verifier, so the writer sits opaquely in
/// this struct, described only by the two spec functions below.
#[verifier::external_body]
pub struct SummaryWriter {
    inner: csv::Writer<Vec<u8>>,
}

/// The text that the writer has accepted so far.
pub uninterp spec fn writer_text(w: SummaryWriter) -> Seq<char>;

/// That every record accepted so far was five plain fields, so the text is
/// ASCII and the next five-field record cannot fail the length check.
pub uninterp spec fn writer_plain(w: SummaryWriter) -> bool;

/// Relies on csv's `Writer::from_writer`: a fresh writer with the default
/// configuration — comma delimiter, newline terminator, quoting only where
/// a field needs it — that has accepted nothing yet.
#[verifier::external_body]
pub(crate) fn csv_writer_new() -> (w: SummaryWriter)
    ensures
        writer_text(w) == Seq::<char>::empty(),
        writer_plain(w),
{
    SummaryWriter { inner: csv::Writer::from_writer(Vec::new()) }
}

/// Relies on csv's `Writer::write_record`: plain fields need no quoting, so
/// the record goes out as the fields joined with commas plus a newline.
/// Writing cannot fail here: the sink is a `Vec<u8>`, whose writes always
/// succeed, and the record has the same five fields as every one before it,
/// so the writer's length check passes.
#[verifier::external_body]
pub(crate) fn csv_write_record(w: &mut SummaryWriter, fields: &Vec<String>)
    requires
        writer_plain(*old(w)),
        plain_record(fields@.map_values(|f: String| f@)),
    ensures
        writer_plain(*final(w)),
        writer_text(*final(w)) == writer_text(*old(w)) + encode_record(
            fields@.map_values(|f: String| f@),
        ),
{
    w.inner.write_record(fields).unwrap();
}

/// Relies on csv's `Writer::into_inner` and `String::from_utf8`: flushing
/// into the `Vec<u8>` sink cannot fail, and a writer fed only plain fields
/// holds ASCII bytes, which read back as exactly the accepted text.
#[verifier::external_body]
pub(crate) fn csv_writer_into_string(w: SummaryWriter) -> (r: String)
    requires
        writer_plain(w),
    ensures
        r@ == writer_text(w),
{
    String::from_utf8(w.inner.into_inner().unwrap()).unwrap()
}

/// Every decimal digit string is a plain field.
pub proof fn lemma_dec_digits_plain(n: nat)
    ensures
        plain_field(dec_digits(n)),
    decreases n,
{
    if n < 10 {
        assert(plain_char(digit_char(n as int)));
    } else {
        lemma_dec_digits_plain(n / 10);
        assert(plain_char(digit_char((n % 10) as int)));
        assert forall|i: int| 0 <= i < dec_digits(n).len() implies plain_char(
            #[trigger] dec_digits(n)[i],
        ) by {
            if i < dec_digits(n / 10).len() {
                assert(dec_digits(n)[i] == dec_digits(n / 10)[i]);
            } else {
                assert(dec_digits(n)[i] == digit_char((n % 10) as int));
            }
        }
    }
}

/// The text of any amount is a plain field.
pub proof fn lemma_render_amount_plain(a: int)
    ensures
        plain_field(render_amount(a)),
{
    let m = if a < 0 {
        (-a) as nat
    } else {
        a as nat
    };
    lemma_dec_digits_plain(m / 10000);
    let f = (m % 10000) as nat;
    assert(plain_char(digit_char(((f / 1000) % 10) as int)));
    assert(plain_char(digit_char(((f / 100) % 10) as int)));
    assert(plain_char(digit_char(((f / 10) % 10) as int)));
    assert(plain_char(digit_char((f % 10) as int)));
    assert(plain_char('.'));
    assert(plain_char('-'));
    assert forall|i: int| 0 <= i < render_magnitude(m).len() implies plain_char(
        #[trigger] render_magnitude(m)[i],
    ) by {
        let d = dec_digits(m / 10000);
        if i < d.len() {
            assert(render_magnitude(m)[i] == d[i]);
        } else {
            assert(m % 10000 != 0);
            let rest = seq!['.'] + frac_chars(f);
            assert(render_magnitude(m)[i] == rest[i - d.len()]);
        }
    }
    if a < 0 {
        assert forall|i: int| 0 <= i < render_amount(a).len() implies plain_char(
            #[trigger] render_amount(a)[i],
        ) by {
            if i == 0 {
                assert(render_amount(a)[i] == '-');
            } else {
                assert(render_amount(a)[i] == render_magnitude(m)[i - 1]);
            }
        }
    }
}

/// The canonical boolean texts are plain fields.
pub proof fn lemma_bool_text_plain(b: bool)
    ensures
        plain_field(bool_text(b)),
{
    reveal_strlit("true");
    reveal_strlit("false");
    if b {
        assert forall|i: int| 0 <= i < bool_text(b).len() implies plain_char(
            #[trigger] bool_text(b)[i],
        ) by {
            assert(bool_text(b) == "true"@);
        }
    } else {
        assert forall|i: int| 0 <= i < bool_text(b).len() implies plain_char(
            #[trigger] bool_text(b)[i],
        ) by {
            assert(bool_text(b) == "false"@);
        }
    }
}

} // verus!
