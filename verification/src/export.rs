use vstd::prelude::*;
use vstd::utf8::{decode_utf8, valid_utf8};
use crate::error::{Error, ErrorKind};
use crate::value::string_from_utf8;

verus! {

/// The flattened contents of the chunks the export channel delivered, in
/// order.
pub open spec fn concat_of(chunks: Seq<Seq<u8>>) -> Seq<u8>
    decreases chunks.len(),
{
    if chunks.len() == 0 {
        Seq::empty()
    } else {
        chunks[0] + concat_of(chunks.drop_first())
    }
}

pub open spec fn chunk_views(chunks: Seq<Vec<u8>>) -> Seq<Seq<u8>> {
    chunks.map_values(|c: Vec<u8>| c@)
}

proof fn lemma_concat_push(chunks: Seq<Seq<u8>>, x: Seq<u8>)
    ensures
        concat_of(chunks.push(x)) =~= concat_of(chunks) + x,
    decreases chunks.len(),
{
    let p = chunks.push(x);
    assert(p.len() == chunks.len() + 1);
    assert(concat_of(p) == p[0] + concat_of(p.drop_first()));
    if chunks.len() == 0 {
        assert(p[0] == x);
        assert(p.drop_first() =~= Seq::<Seq<u8>>::empty());
        assert(concat_of(p.drop_first()) == Seq::<u8>::empty());
        assert(concat_of(p) =~= x);
        assert(concat_of(chunks) + x =~= x);
    } else {
        assert(p[0] == chunks[0]);
        assert(p.drop_first() =~= chunks.drop_first().push(x));
        lemma_concat_push(chunks.drop_first(), x);
        assert(concat_of(p.drop_first()) =~= concat_of(chunks.drop_first()) + x);
        assert(chunks[0] + (concat_of(chunks.drop_first()) + x) =~= (chunks[0] + concat_of(
            chunks.drop_first(),
        )) + x);
        assert(concat_of(chunks) == chunks[0] + concat_of(chunks.drop_first()));
    }
}

/// Joins the chunks the export stream delivered into one byte buffer, in
/// delivery order.
fn concat_chunks(chunks: &Vec<Vec<u8>>) -> (r: Vec<u8>)
    ensures
        r@ =~= concat_of(chunk_views(chunks@)),
{
    let mut out: Vec<u8> = Vec::new();
    let mut i: usize = 0;
    while i < chunks.len()
        invariant
            0 <= i <= chunks@.len(),
            out@ =~= concat_of(chunk_views(chunks@).take(i as int)),
        decreases chunks@.len() - i,
    {
        let chunk = &chunks[i];
        let mut j: usize = 0;
        while j < chunk.len()
            invariant
                0 <= i < chunks@.len(),
                chunk@ == chunks@[i as int]@,
                0 <= j <= chunk@.len(),
                out@ =~= concat_of(chunk_views(chunks@).take(i as int)) + chunk@.take(j as int),
            decreases chunk@.len() - j,
        {
            out.push(chunk[j]);
            proof {
                assert(chunk@.take(j + 1) =~= chunk@.take(j as int).push(chunk@[j as int]));
            }
            j += 1;
        }
        proof {
            assert(chunk@.take(chunk@.len() as int) =~= chunk@);
            lemma_concat_push(chunk_views(chunks@).take(i as int), chunks@[i as int]@);
            assert(chunk_views(chunks@).take(i as int).push(chunks@[i as int]@) =~= chunk_views(
                chunks@,
            ).take(i + 1));
        }
        i += 1;
    }
    proof {
        assert(chunk_views(chunks@).take(chunks@.len() as int) =~= chunk_views(chunks@));
    }
    out
}

/// Joins the export stream's chunks and reads them as text: the snapshot
/// is handed back as one string, and bytes that are not valid text are an
/// encoding error.
pub fn assemble_export(chunks: Vec<Vec<u8>>) -> (r: Result<String, Error>)
    ensures
        match r {
            Ok(s) => valid_utf8(concat_of(chunk_views(chunks@))) && s@ == decode_utf8(
                concat_of(chunk_views(chunks@)),
            ),
            Err(e) => !valid_utf8(concat_of(chunk_views(chunks@))) && e.kind
                == ErrorKind::Encoding,
        },
{
    let joined = concat_chunks(&chunks);
    match string_from_utf8(joined) {
        Some(s) => Ok(s),
        None => Err(Error::new(ErrorKind::Encoding, "export is not valid text".to_owned())),
    }
}

} // verus!
