//! The socket-table reader: splitting a table line into whitespace-
//! delimited fields, keeping the rows in listening state, and recovering
//! each kept row's address, port and inode.

use crate::bytes::is_whitespace;
use crate::bytes::is_ws;
use crate::bytes::rows_view;
use crate::bytes::spec_parse_uint;
use crate::bytes::parse_uint;
use crate::error::ScanError;
use crate::ip::parse_address_port;
use crate::ip::spec_parse_address_port;
use crate::ip::IpAddress;
use vstd::prelude::*;

verus! {

/// Splitting on runs of whitespace, read left to right: `cur` is the
/// field currently being gathered and `acc` the fields already complete.
pub open spec fn split_ws_acc(s: Seq<u8>, cur: Seq<u8>, acc: Seq<Seq<u8>>) -> Seq<Seq<u8>>
    decreases s.len(),
{
    if s.len() == 0 {
        if cur.len() == 0 {
            acc
        } else {
            acc.push(cur)
        }
    } else if is_ws(s[0]) {
        if cur.len() == 0 {
            split_ws_acc(s.drop_first(), cur, acc)
        } else {
            split_ws_acc(s.drop_first(), Seq::empty(), acc.push(cur))
        }
    } else {
        split_ws_acc(s.drop_first(), cur.push(s[0]), acc)
    }
}

/// The whitespace-separated fields of a line, in order.
pub open spec fn split_ws(s: Seq<u8>) -> Seq<Seq<u8>> {
    split_ws_acc(s, Seq::empty(), Seq::empty())
}

/// Splits a line into its whitespace-separated fields.
pub fn split_fields(line: &Vec<u8>) -> (r: Vec<Vec<u8>>)
    ensures
        rows_view(r@) == split_ws(line@),
{
    let mut fields: Vec<Vec<u8>> = Vec::new();
    let mut cur: Vec<u8> = Vec::new();
    let mut i: usize = 0;
    proof {
        assert(line@.skip(0) =~= line@);
        assert(rows_view(fields@) =~= Seq::<Seq<u8>>::empty());
    }
    while i < line.len()
        invariant
            0 <= i <= line@.len(),
            split_ws(line@) == split_ws_acc(line@.skip(i as int), cur@, rows_view(fields@)),
        decreases line@.len() - i,
    {
        let ghost prev_fields = fields@;
        let ghost prev_cur = cur@;
        let c = line[i];
        proof {
            assert(line@.skip(i as int)[0] == line@[i as int]);
            assert(line@.skip(i as int).drop_first() =~= line@.skip(i as int + 1));
        }
        if is_whitespace(c) {
            if cur.len() > 0 {
                fields.push(cur);
                cur = Vec::new();
                proof {
                    assert(rows_view(fields@) =~= rows_view(prev_fields).push(prev_cur));
                }
            }
        } else {
            cur.push(c);
        }
        i = i + 1;
    }
    proof {
        assert(line@.skip(line@.len() as int) =~= Seq::<u8>::empty());
    }
    if cur.len() > 0 {
        let ghost prev_fields = fields@;
        let ghost prev_cur = cur@;
        fields.push(cur);
        proof {
            assert(rows_view(fields@) =~= rows_view(prev_fields).push(prev_cur));
        }
    }
    fields
}

/// The two-character connection-state code that marks a listening
/// socket: `0A`.
pub open spec fn listen_state() -> Seq<u8> {
    seq![48u8, 65u8]
}

/// Whether a state field equals the listening-state code.
pub fn is_listen_state(field: &Vec<u8>) -> (r: bool)
    ensures
        r == (field@ == listen_state()),
{
    let r = field.len() == 2 && field[0] == 48 && field[1] == 65;
    proof {
        if r {
            assert(field@ =~= listen_state());
        } else {
            assert(field@ != listen_state());
        }
    }
    r
}

/// One listening socket recovered from the kernel table: its local
/// address and port, and the kernel inode of the socket.
#[derive(Debug, PartialEq, Eq)]
pub struct ActivePort {
    pub address: IpAddress,
    pub port: u16,
    pub inode: u32,
}

/// The mathematical content of an [`ActivePort`].
pub ghost struct ActivePortView {
    pub octets: Seq<u8>,
    pub port: u16,
    pub inode: u32,
}

impl View for ActivePort {
    type V = ActivePortView;

    open spec fn view(&self) -> ActivePortView {
        ActivePortView { octets: self.address.octets@, port: self.port, inode: self.inode }
    }
}

impl ActivePort {
    pub open spec fn well_formed(&self) -> bool {
        self.address.well_formed()
    }
}

/// The views of a sequence of records.
pub open spec fn snap_view(s: Seq<ActivePort>) -> Seq<ActivePortView> {
    s.map_values(|p: ActivePort| p@)
}

/// The parse of one table row. A row whose fourth field is not the
/// listening-state code is skipped, however short the row. A kept row's
/// second field is its `ADDR:PORT` token and its last field, which must
/// stand after the state field, is the decimal inode.
pub open spec fn spec_parse_line(line: Seq<u8>) -> Result<Option<ActivePortView>, ScanError> {
    let fs = split_ws(line);
    if fs.len() < 4 || fs[3] != listen_state() {
        Ok(None)
    } else {
        match spec_parse_address_port(fs[1]) {
            Err(e) => Err(e),
            Ok((octets, port)) => {
                if fs.len() == 4 {
                    Err(ScanError::TableParseError)
                } else {
                    match spec_parse_uint(fs[fs.len() - 1], 10, 0xFFFF_FFFF) {
                        Some(inode) => Ok(
                            Some(ActivePortView { octets, port, inode: inode as u32 }),
                        ),
                        None => Err(ScanError::TableParseError),
                    }
                }
            },
        }
    }
}

/// Parses one table row, yielding its record if it is kept, nothing if
/// it is skipped, and the spec-level error if it is kept but malformed.
pub fn parse_table_line(line: &Vec<u8>) -> (r: Result<Option<ActivePort>, ScanError>)
    ensures
        r matches Ok(Some(p)) ==> p.well_formed() && spec_parse_line(line@) == Ok::<
            Option<ActivePortView>,
            ScanError,
        >(Some(p@)),
        r matches Ok(None::<ActivePort>) ==> spec_parse_line(line@) == Ok::<
            Option<ActivePortView>,
            ScanError,
        >(None),
        r matches Err(e) ==> spec_parse_line(line@) == Err::<Option<ActivePortView>, ScanError>(
            e,
        ),
{
    let fields = split_fields(line);
    let ghost fs = split_ws(line@);
    if fields.len() < 4 {
        return Ok(None);
    }
    proof {
        assert(fs[3] == fields@[3]@);
    }
    if !is_listen_state(&fields[3]) {
        return Ok(None);
    }
    proof {
        assert(fs[1] == fields@[1]@);
    }
    let (address, port) = match parse_address_port(&fields[1]) {
        Ok(ap) => ap,
        Err(e) => {
            return Err(e);
        },
    };
    if fields.len() == 4 {
        return Err(ScanError::TableParseError);
    }
    let last = fields.len() - 1;
    proof {
        assert(fs[fs.len() - 1] == fields@[last as int]@);
    }
    let inode = match parse_uint(&fields[last], 10, 0xFFFF_FFFF) {
        Some(v) => v as u32,
        None => {
            return Err(ScanError::TableParseError);
        },
    };
    Ok(Some(ActivePort { address, port, inode }))
}

/// Prefixing already-parsed records onto the outcome of the rows that
/// follow them.
pub open spec fn prepend_rows(
    a: Seq<ActivePortView>,
    r: Result<Seq<ActivePortView>, ScanError>,
) -> Result<Seq<ActivePortView>, ScanError> {
    match r {
        Ok(s) => Ok(a + s),
        Err(e) => Err(e),
    }
}

pub proof fn lemma_prepend_rows_assoc(
    a: Seq<ActivePortView>,
    b: Seq<ActivePortView>,
    r: Result<Seq<ActivePortView>, ScanError>,
)
    ensures
        prepend_rows(a, prepend_rows(b, r)) == prepend_rows(a + b, r),
{
    match r {
        Ok(s) => {
            assert(a + (b + s) =~= (a + b) + s);
        },
        Err(_) => {
        },
    }
}

/// The records of a run of table rows, in row order; the first error in
/// row order fails the whole run.
pub open spec fn spec_parse_rows(lines: Seq<Seq<u8>>) -> Result<Seq<ActivePortView>, ScanError>
    decreases lines.len(),
{
    if lines.len() == 0 {
        Ok(Seq::empty())
    } else {
        match spec_parse_line(lines[0]) {
            Err(e) => Err(e),
            Ok(None) => spec_parse_rows(lines.drop_first()),
            Ok(Some(p)) => prepend_rows(seq![p], spec_parse_rows(lines.drop_first())),
        }
    }
}

/// The records of a whole table: the first line is the header and is
/// discarded unread; every later row is parsed in order.
pub open spec fn spec_parse_table(lines: Seq<Seq<u8>>) -> Result<Seq<ActivePortView>, ScanError> {
    if lines.len() == 0 {
        Ok(Seq::empty())
    } else {
        spec_parse_rows(lines.drop_first())
    }
}

/// Parses a whole table, handed in as its lines in file order. The
/// records of the kept rows come back in file order; a kept but
/// malformed row fails the whole table.
pub fn parse_socket_table(lines: &Vec<Vec<u8>>) -> (r: Result<Vec<ActivePort>, ScanError>)
    ensures
        r matches Ok(ports) ==> (forall|i: int|
            0 <= i < ports@.len() ==> (#[trigger] ports@[i]).well_formed())
            && spec_parse_table(rows_view(lines@)) == Ok::<Seq<ActivePortView>, ScanError>(
            snap_view(ports@),
        ),
        r matches Err(e) ==> spec_parse_table(rows_view(lines@)) == Err::<
            Seq<ActivePortView>,
            ScanError,
        >(e),
{
    let ghost all = rows_view(lines@);
    let mut out: Vec<ActivePort> = Vec::new();
    if lines.len() == 0 {
        proof {
            assert(snap_view(out@) =~= Seq::<ActivePortView>::empty());
        }
        return Ok(out);
    }
    let mut i: usize = 1;
    while i < lines.len()
        invariant
            1 <= i <= lines@.len(),
            all == rows_view(lines@),
            forall|j: int| 0 <= j < out@.len() ==> (#[trigger] out@[j]).well_formed(),
            spec_parse_rows(all.skip(1)) == prepend_rows(snap_view(out@), spec_parse_rows(all.skip(i as int))),
        decreases lines@.len() - i,
    {
        let ghost prev_out = out@;
        proof {
            assert(all.skip(i as int)[0] == all[i as int]);
            assert(all[i as int] == lines@[i as int]@);
            assert(all.skip(i as int).drop_first() =~= all.skip(i as int + 1));
        }
        match parse_table_line(&lines[i]) {
            Err(e) => {
                return Err(e);
            },
            Ok(None) => {
            },
            Ok(Some(p)) => {
                out.push(p);
                proof {
                    assert(snap_view(out@) =~= snap_view(prev_out) + seq![p@]);
                    lemma_prepend_rows_assoc(
                        snap_view(prev_out),
                        seq![p@],
                        spec_parse_rows(all.skip(i as int + 1)),
                    );
                }
            },
        }
        i = i + 1;
    }
    proof {
        assert(all.skip(lines@.len() as int) =~= Seq::<Seq<u8>>::empty());
        assert(snap_view(out@) + Seq::<ActivePortView>::empty() =~= snap_view(out@));
    }
    Ok(out)
}

/// The full snapshot: the first table's records followed by the second
/// table's, each in its own order.
pub fn concat_snapshots(first: Vec<ActivePort>, second: Vec<ActivePort>) -> (r: Vec<ActivePort>)
    ensures
        r@ == first@ + second@,
{
    let ghost first_v = first@;
    let ghost second_v = second@;
    let mut r = first;
    let mut rest = second;
    while rest.len() > 0
        invariant
            r@ + rest@ == first_v + second_v,
        decreases rest.len(),
    {
        let ghost prev_r = r@;
        let ghost prev_rest = rest@;
        let p = rest.remove(0);
        r.push(p);
        proof {
            assert(prev_r + prev_rest =~= r@ + rest@);
        }
    }
    proof {
        assert(r@ + rest@ =~= r@);
    }
    r
}

} // verus!
