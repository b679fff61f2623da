//! Requests to a Typesense index: declaring a collection's schema, and
//! importing records into it as newline-delimited JSON with upsert
//! semantics. Every request is a `POST` that carries the API key in a header.
//! Building them is all this module does; sending them is up to the caller.

use vstd::prelude::*;
use vstd::string::*;
use crate::json::{
    company_json, encode_company, encode_lines, encode_tax_record, json_quoted, lines_text,
    tax_json, texts,
};
use crate::batch::{batch_count, batches, plan_batches};
use crate::record::{Company, CompanyRow, TaxRecord, TaxRow};

verus! {

/// The header that carries the API key.
pub const API_KEY_HEADER: &'static str = "X-TYPESENSE-API-KEY";

/// The schema of the companies collection, sorted by registration number.
pub const COMPANY_SCHEMA: &'static str = "{\"name\":\"companies\",\"fields\":[{\"name\":\"cvr\",\"type\":\"int32\"},{\"name\":\"name\",\"type\":\"string\"}],\"default_sorting_field\":\"cvr\"}";

/// The schema of the tax collection, sorted by registration number, with
/// type and year as facets and the amounts optional.
pub const TAX_SCHEMA: &'static str = "{\"name\":\"taxes\",\"fields\":[{\"name\":\"cvr\",\"type\":\"int32\"},{\"name\":\"se\",\"type\":\"int32\"},{\"name\":\"company_name\",\"type\":\"string\"},{\"name\":\"company_type\",\"type\":\"string\",\"facet\":true},{\"name\":\"year\",\"type\":\"int32\",\"facet\":true},{\"name\":\"taxable_income\",\"type\":\"int64\",\"optional\":true},{\"name\":\"deficit\",\"type\":\"int64\",\"optional\":true},{\"name\":\"corporate_tax\",\"type\":\"int64\",\"optional\":true}],\"default_sorting_field\":\"cvr\"}";

/// The endpoint that creates a collection.
pub const COLLECTIONS: &'static str = "collections";

/// The endpoint that imports into the companies collection.
pub const COMPANY_IMPORT: &'static str = "collections/companies/documents/import?action=upsert";

/// The endpoint that imports into the tax collection.
pub const TAX_IMPORT: &'static str = "collections/taxes/documents/import?action=upsert";

/// A `POST` to `url`, with the API key to send in `API_KEY_HEADER`.
pub struct Request {
    pub url: String,
    pub api_key: String,
    pub body: String,
}

/// The JSON objects of some companies.
pub open spec fn company_objects(cs: Seq<CompanyRow>) -> Seq<Seq<char>> {
    cs.map_values(|c: CompanyRow| company_json(c.cvr, json_quoted(c.name)))
}

/// The JSON objects of some tax records.
pub open spec fn tax_objects(rs: Seq<TaxRow>) -> Seq<Seq<char>> {
    rs.map_values(|r: TaxRow| tax_json(r, json_quoted(r.company_name), json_quoted(r.company_type)))
}

/// A client of one Typesense service.
pub struct Typesense {
    base_url: String,
    api_key: String,
}

impl Typesense {
    /// The address that endpoints are relative to.
    pub closed spec fn base_url(&self) -> Seq<char> {
        self.base_url@
    }

    /// The key sent with every request.
    pub closed spec fn api_key(&self) -> Seq<char> {
        self.api_key@
    }

    /// The address of `endpoint`.
    pub open spec fn url_of(&self, endpoint: Seq<char>) -> Seq<char> {
        self.base_url() + seq!['/'] + endpoint
    }

    /// A client of the service at `base_url`, authenticated by `api_key`.
    pub fn new(base_url: &str, api_key: &str) -> (r: Typesense)
        ensures
            r.base_url() == base_url@,
            r.api_key() == api_key@,
    {
        Typesense { base_url: base_url.to_owned(), api_key: api_key.to_owned() }
    }

    /// A request to `endpoint` with `body`.
    fn new_req(&self, endpoint: &str, body: String) -> (r: Request)
        ensures
            r.url@ == self.url_of(endpoint@),
            r.api_key@ == self.api_key(),
            r.body@ == body@,
    {
        let mut url = self.base_url.clone();
        url.append("/");
        url.append(endpoint);
        proof {
            reveal_strlit("/");
        }
        assert(url@ =~= self.url_of(endpoint@));
        Request { url, api_key: self.api_key.clone(), body }
    }

    /// The request that creates the companies collection.
    pub fn create_collection(&self) -> (r: Request)
        ensures
            r.url@ == self.url_of(COLLECTIONS@),
            r.api_key@ == self.api_key(),
            r.body@ == COMPANY_SCHEMA@,
    {
        self.new_req(COLLECTIONS, COMPANY_SCHEMA.to_owned())
    }

    /// The request that creates the tax collection.
    pub fn create_tax_collection(&self) -> (r: Request)
        ensures
            r.url@ == self.url_of(COLLECTIONS@),
            r.api_key@ == self.api_key(),
            r.body@ == TAX_SCHEMA@,
    {
        self.new_req(COLLECTIONS, TAX_SCHEMA.to_owned())
    }

    /// The request that upserts `companies`, one JSON object per line, in
    /// order.
    pub fn import(&self, companies: &[Company]) -> (r: Request)
        ensures
            r.url@ == self.url_of(COMPANY_IMPORT@),
            r.api_key@ == self.api_key(),
            r.body@ == lines_text(company_objects(companies@.map_values(|c: Company| c@))),
    {
        let ghost all = company_objects(companies@.map_values(|c: Company| c@));
        let mut objs: Vec<String> = Vec::new();
        let mut i: usize = 0;
        while i < companies.len()
            invariant
                i <= companies.len(),
                all == company_objects(companies@.map_values(|c: Company| c@)),
                texts(objs@) == all.take(i as int),
            decreases companies.len() - i,
        {
            let ghost before = texts(objs@);
            assert(companies@.map_values(|c: Company| c@)[i as int] == companies@[i as int]@);
            match encode_company(&companies[i]) {
                Some(o) => {
                    objs.push(o);
                    assert(texts(objs@) =~= before.push(all[i as int]));
                },
                None => {},
            }
            assert(texts(objs@) =~= all.take(i + 1));
            i = i + 1;
        }
        assert(all.take(companies.len() as int) =~= all);
        let body = encode_lines(&objs);
        self.new_req(COMPANY_IMPORT, body)
    }

    /// The request that upserts `records`, one JSON object per line, in
    /// order.
    pub fn import_tax_records(&self, records: &[TaxRecord]) -> (r: Request)
        ensures
            r.url@ == self.url_of(TAX_IMPORT@),
            r.api_key@ == self.api_key(),
            r.body@ == lines_text(tax_objects(records@.map_values(|t: TaxRecord| t@))),
    {
        let ghost all = tax_objects(records@.map_values(|t: TaxRecord| t@));
        let mut objs: Vec<String> = Vec::new();
        let mut i: usize = 0;
        while i < records.len()
            invariant
                i <= records.len(),
                all == tax_objects(records@.map_values(|t: TaxRecord| t@)),
                texts(objs@) == all.take(i as int),
            decreases records.len() - i,
        {
            let ghost before = texts(objs@);
            assert(records@.map_values(|t: TaxRecord| t@)[i as int] == records@[i as int]@);
            match encode_tax_record(&records[i]) {
                Some(o) => {
                    objs.push(o);
                    assert(texts(objs@) =~= before.push(all[i as int]));
                },
                None => {},
            }
            assert(texts(objs@) =~= all.take(i + 1));
            i = i + 1;
        }
        assert(all.take(records.len() as int) =~= all);
        let body = encode_lines(&objs);
        self.new_req(TAX_IMPORT, body)
    }

    /// The requests that upsert `companies` in batches of `size`: the number
    /// of companies divided by `size` and rounded up, each batch full but
    /// perhaps the last, in order.
    pub fn import_in_batches(&self, companies: Vec<Company>, size: usize) -> (r: Vec<Request>)
        requires
            size > 0,
        ensures
            r.len() == batch_count(companies.len() as nat, size as nat),
            r.len() == batches(companies@, size as nat).len(),
            forall|j: int|
                0 <= j < r.len() ==> {
                    &&& (#[trigger] r[j]).url@ == self.url_of(COMPANY_IMPORT@)
                    &&& r[j].api_key@ == self.api_key()
                    &&& r[j].body@ == lines_text(
                        company_objects(
                            batches(companies@, size as nat)[j].map_values(|c: Company| c@),
                        ),
                    )
                },
    {
        let ghost all = batches(companies@, size as nat);
        let plan = plan_batches(companies, size);
        let mut out: Vec<Request> = Vec::new();
        let mut j: usize = 0;
        while j < plan.len()
            invariant
                j <= plan.len(),
                out.len() == j,
                plan.len() == all.len(),
                forall|i: int| 0 <= i < plan.len() ==> (#[trigger] plan[i]).records@ == all[i],
                forall|i: int|
                    0 <= i < j ==> {
                        &&& (#[trigger] out[i]).url@ == self.url_of(COMPANY_IMPORT@)
                        &&& out[i].api_key@ == self.api_key()
                        &&& out[i].body@ == lines_text(
                            company_objects(all[i].map_values(|c: Company| c@)),
                        )
                    },
            decreases plan.len() - j,
        {
            let req = self.import(plan[j].records.as_slice());
            out.push(req);
            j = j + 1;
        }
        out
    }
}

} // verus!
