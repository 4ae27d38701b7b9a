//! Start-up inputs: locating the seed list's columns and building a system's
//! detail-page address.
use vstd::prelude::*;
use vstd::string::StringExecFns;
use crate::model::WaterDetail;
use crate::resolve::str_views;

verus! {

/// Where the three required columns stand in the seed list.
pub struct HeaderColumns {
    pub ws_number: usize,
    pub st_code: usize,
    pub is_number: usize,
}

/// The position of the last header equal to `name`.
pub open spec fn last_index(hs: Seq<Seq<char>>, name: Seq<char>) -> Option<int>
    decreases hs.len(),
{
    if hs.len() == 0 {
        None
    } else if hs.last() == name {
        Some(hs.len() - 1)
    } else {
        last_index(hs.drop_last(), name)
    }
}

/// The required column names that no header carries, in the order: internal
/// number, state code, system number.
pub open spec fn missing_columns(
    hs: Seq<Seq<char>>,
    ws: Seq<char>,
    st: Seq<char>,
    is: Seq<char>,
) -> Seq<Seq<char>> {
    (if last_index(hs, is) is None { seq![is] } else { Seq::empty() }) + (if last_index(hs, st) is None {
        seq![st]
    } else {
        Seq::empty()
    }) + (if last_index(hs, ws) is None { seq![ws] } else { Seq::empty() })
}

fn find_last(headers: &Vec<String>, name: &String) -> (r: Option<usize>)
    ensures
        match r {
            Some(i) => last_index(str_views(headers@), name@) == Some(i as int),
            None => last_index(str_views(headers@), name@) is None,
        },
{
    let ghost hs = str_views(headers@);
    let mut i: usize = headers.len();
    assert(hs.subrange(0, i as int) == hs);
    while i > 0
        invariant
            i <= headers@.len(),
            hs == str_views(headers@),
            last_index(hs, name@) == last_index(hs.subrange(0, i as int), name@),
        decreases i,
    {
        let ghost pre = hs.subrange(0, i as int);
        assert(pre.last() == headers@[i - 1]@);
        if headers[i - 1] == *name {
            return Some(i - 1);
        }
        assert(pre.drop_last() == hs.subrange(0, i - 1));
        i = i - 1;
    }
    None
}

/// The columns of the seed list's three required fields, each the last header
/// that carries its name; otherwise every required name that no header
/// carries.
pub fn map_headers(headers: &Vec<String>, ws_header: &String, st_header: &String, is_header: &String) -> (r: Result<HeaderColumns, Vec<String>>)
    ensures
        ({
            let hs = str_views(headers@);
            match r {
                Ok(c) => {
                    &&& last_index(hs, ws_header@) == Some(c.ws_number as int)
                    &&& last_index(hs, st_header@) == Some(c.st_code as int)
                    &&& last_index(hs, is_header@) == Some(c.is_number as int)
                },
                Err(m) => {
                    &&& str_views(m@) == missing_columns(hs, ws_header@, st_header@, is_header@)
                    &&& m@.len() > 0
                },
            }
        }),
{
    let ws = find_last(headers, ws_header);
    let st = find_last(headers, st_header);
    let is = find_last(headers, is_header);
    match (ws, st, is) {
        (Some(w), Some(s), Some(i)) => Ok(HeaderColumns { ws_number: w, st_code: s, is_number: i }),
        _ => {
            let mut missing: Vec<String> = Vec::new();
            if is.is_none() {
                missing.push(is_header.clone());
            }
            if st.is_none() {
                missing.push(st_header.clone());
            }
            if ws.is_none() {
                missing.push(ws_header.clone());
            }
            assert(str_views(missing@) == missing_columns(
                str_views(headers@),
                ws_header@,
                st_header@,
                is_header@,
            ));
            Err(missing)
        },
    }
}

/// The detail-page address of a system with the given number, state code and
/// internal number.
pub open spec fn detail_url(ws: Seq<char>, st: Seq<char>, is: Seq<char>) -> Seq<char> {
    "https://dww2.tceq.texas.gov/DWW/JSP/WaterSystemDetail.jsp?tinwsys_is_number="@ + is
        + "&tinwsys_st_code="@ + st + "&wsnumber="@ + ws + "%20%20%20&DWWState="@ + st
}

impl WaterDetail {
    /// The address of this system's detail page; only systems with an
    /// internal number have one.
    pub fn url(&self) -> (r: String)
        requires
            self.is_number is Some,
        ensures
            r@ == detail_url(self.ws_number@, self.st_code@, self.is_number->0@),
    {
        let is_number = self.is_number.as_ref().unwrap();
        let mut r = String::from_str(
            "https://dww2.tceq.texas.gov/DWW/JSP/WaterSystemDetail.jsp?tinwsys_is_number=",
        );
        r.append(is_number.as_str());
        r.append("&tinwsys_st_code=");
        r.append(self.st_code.as_str());
        r.append("&wsnumber=");
        r.append(self.ws_number.as_str());
        r.append("%20%20%20&DWWState=");
        r.append(self.st_code.as_str());
        r
    }
}

} // verus!
