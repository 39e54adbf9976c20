use vstd::prelude::*;

use crate::model::{Invoice, InvoiceStatus, Payment, PaymentStatus, Webhook, WebhookEvent, WebhookStatus};
use crate::store::Store;

verus! {

/// The standard response envelope: `status` is `success` or `error`, with
/// data on success and a message on error.
#[derive(Debug)]
pub struct ApiResponse<T> {
    pub status: String,
    pub data: Option<T>,
    pub message: Option<String>,
}

impl<T> ApiResponse<T> {
    /// A success envelope carrying `data`.
    pub fn success(data: T) -> (r: ApiResponse<T>)
        ensures
            r.status@ == "success"@,
            r.data == Some(data),
            r.message is None,
    {
        ApiResponse { status: String::from_str("success"), data: Some(data), message: None }
    }

    /// A success envelope without data.
    pub fn ok() -> (r: ApiResponse<T>)
        ensures
            r.status@ == "success"@,
            r.data is None,
            r.message is None,
    {
        ApiResponse { status: String::from_str("success"), data: None, message: None }
    }

    /// An error envelope carrying `msg`.
    pub fn error(msg: String) -> (r: ApiResponse<T>)
        ensures
            r.status@ == "error"@,
            r.data is None,
            r.message matches Some(m) && m@ == msg@,
    {
        ApiResponse { status: String::from_str("error"), data: None, message: Some(msg) }
    }
}

/// An empty response body.
#[derive(Debug)]
pub struct Empty {}

/// The three error kinds of the API boundary.
#[derive(Debug)]
pub enum ApiError {
    BadRequest(String),
    NotFound(String),
    InternalServerError(String),
}

impl ApiError {
    /// The HTTP status code each error kind maps to.
    pub fn status_code(&self) -> (r: u16)
        ensures
            self matches ApiError::BadRequest(_) ==> r == 400,
            self matches ApiError::NotFound(_) ==> r == 404,
            self matches ApiError::InternalServerError(_) ==> r == 500,
    {
        match self {
            ApiError::BadRequest(_) => 400,
            ApiError::NotFound(_) => 404,
            ApiError::InternalServerError(_) => 500,
        }
    }
}

/// The default page size of paginated listings.
pub fn default_page_size() -> (r: u32)
    ensures
        r == 20,
{
    20
}

/// The default page of paginated listings, counted from one.
pub fn default_page() -> (r: u64)
    ensures
        r == 1,
{
    1
}

/// Pagination as a client states it: a page size and a one-based page.
#[derive(Clone, Copy, Debug, PartialEq, Eq, Structural)]
pub struct PaginationParams {
    pub page_size: u32,
    pub page: u64,
}

/// Pagination as the store applies it: a row limit and an offset.
#[derive(Clone, Copy, Debug, PartialEq, Eq, Structural)]
pub struct Pagination {
    pub limit: u32,
    pub offset: u64,
}

impl PaginationParams {
    /// Page arithmetic: page zero means page one, the page size is capped
    /// at one hundred, and the offset skips the earlier pages, saturating
    /// at the largest representable offset.
    pub fn to_pagination(&self) -> (r: Pagination)
        ensures
            r.limit == (if self.page_size < 100 {
                self.page_size
            } else {
                100u32
            }),
            r.offset == (if self.page == 0 {
                0int
            } else if (self.page - 1) * r.limit as int <= 0xFFFF_FFFF_FFFF_FFFFu64 {
                (self.page - 1) * r.limit as int
            } else {
                0xFFFF_FFFF_FFFF_FFFFu64 as int
            }),
    {
        let limit: u32 = if self.page_size < 100 {
            self.page_size
        } else {
            100
        };
        if self.page == 0 {
            return Pagination { limit, offset: 0 };
        }
        let pm1: u64 = self.page - 1;
        let l64: u64 = limit as u64;
        if l64 == 0 {
            proof {
                assert(pm1 * (l64 as int) == 0) by (nonlinear_arith)
                    requires
                        l64 == 0,
                ;
            }
            return Pagination { limit, offset: 0 };
        }
        let cap: u64 = 0xFFFF_FFFF_FFFF_FFFFu64 / l64;
        proof {
            vstd::arithmetic::div_mod::lemma_fundamental_div_mod(
                0xFFFF_FFFF_FFFF_FFFFu64 as int,
                l64 as int,
            );
            if pm1 <= cap {
                vstd::arithmetic::mul::lemma_mul_inequality(pm1 as int, cap as int, l64 as int);
            }
            if pm1 > cap {
                vstd::arithmetic::mul::lemma_mul_inequality(
                    (cap + 1) as int,
                    pm1 as int,
                    l64 as int,
                );
                assert((cap + 1) * (l64 as int) > 0xFFFF_FFFF_FFFF_FFFFu64) by (nonlinear_arith)
                    requires
                        0xFFFF_FFFF_FFFF_FFFFu64 as int == (l64 as int) * (cap as int) + (
                        0xFFFF_FFFF_FFFF_FFFFu64 as int % (l64 as int)),
                        0 <= 0xFFFF_FFFF_FFFF_FFFFu64 as int % (l64 as int) < l64 as int,
                        l64 > 0,
                ;
            }
        }
        if pm1 <= cap {
            Pagination { limit, offset: pm1 * l64 }
        } else {
            Pagination { limit, offset: 0xFFFF_FFFF_FFFF_FFFFu64 }
        }
    }
}

/// One page of a listing, with the total number of matches.
#[derive(Debug)]
pub struct PaginatedVecPage<T> {
    pub items: Vec<T>,
    pub total: u64,
    pub page_size: u32,
    pub page: u64,
}

/// The one-based page number a limit and offset fall on.
pub fn page_of(limit: u32, offset: u64) -> (r: u64)
    ensures
        limit > 0 && offset / (limit as u64) < 0xFFFF_FFFF_FFFF_FFFFu64 ==> r == offset / (
        limit as u64) + 1,
        limit == 0 ==> r == 1,
{
    if limit > 0 {
        let q = offset / (limit as u64);
        if q < 0xFFFF_FFFF_FFFF_FFFFu64 {
            q + 1
        } else {
            q
        }
    } else {
        1
    }
}

/// A filter over invoices; absent fields match everything.
#[derive(Debug)]
pub struct InvoiceFilterSchema {
    pub address: Option<String>,
    pub network: Option<String>,
    pub token: Option<String>,
    pub status: Option<InvoiceStatus>,
    pub pagination: PaginationParams,
}

/// Whether `inv` passes `f`.
pub open spec fn invoice_matches(inv: Invoice, f: InvoiceFilterSchema) -> bool {
    &&& (match f.address {
        Some(a) => inv.address@ == a@,
        None => true,
    })
    &&& (match f.network {
        Some(n) => inv.network@ == n@,
        None => true,
    })
    &&& (match f.token {
        Some(t) => inv.token@ == t@,
        None => true,
    })
    &&& (match f.status {
        Some(st) => inv.status == st,
        None => true,
    })
}

/// A filter over payments; absent fields match everything.
#[derive(Debug)]
pub struct PaymentFilterSchema {
    pub invoice_id: Option<String>,
    pub from: Option<String>,
    pub to: Option<String>,
    pub network: Option<String>,
    pub token: Option<String>,
    pub block_number: Option<u64>,
    pub status: Option<PaymentStatus>,
    pub pagination: PaginationParams,
}

/// Whether `p` passes `f`.
pub open spec fn payment_matches(p: Payment, f: PaymentFilterSchema) -> bool {
    &&& (match f.invoice_id {
        Some(v) => p.invoice_id@ == v@,
        None => true,
    })
    &&& (match f.from {
        Some(v) => p.from@ == v@,
        None => true,
    })
    &&& (match f.to {
        Some(v) => p.to@ == v@,
        None => true,
    })
    &&& (match f.network {
        Some(v) => p.network@ == v@,
        None => true,
    })
    &&& (match f.token {
        Some(v) => p.token@ == v@,
        None => true,
    })
    &&& (match f.block_number {
        Some(v) => p.block_number == v,
        None => true,
    })
    &&& (match f.status {
        Some(st) => p.status == st,
        None => true,
    })
}

/// A filter over webhook jobs; absent fields match everything. The event
/// type is named as on the wire: `tx_detected`, `tx_confirmed`,
/// `invoice_paid` or `invoice_expired`.
#[derive(Debug)]
pub struct WebhookFilterSchema {
    pub invoice_id: Option<String>,
    pub event_type: Option<String>,
    pub url: Option<String>,
    pub status: Option<WebhookStatus>,
    pub pagination: PaginationParams,
}

/// Whether `h` passes `f`.
pub open spec fn webhook_matches(h: Webhook, f: WebhookFilterSchema) -> bool {
    &&& (match f.invoice_id {
        Some(v) => h.invoice_id@ == v@,
        None => true,
    })
    &&& (match f.event_type {
        Some(v) => crate::sign::event_type_name(h.payload) == v@,
        None => true,
    })
    &&& (match f.url {
        Some(v) => h.url@ == v@,
        None => true,
    })
    &&& (match f.status {
        Some(st) => h.status == st,
        None => true,
    })
}

/// The page slice `[offset, offset + limit)` of an index listing.
pub fn page_slice(v: &Vec<usize>, limit: u32, offset: u64) -> (r: Vec<usize>)
    ensures
        r@ == v@.subrange(
            (if offset < v@.len() {
                offset as int
            } else {
                v@.len() as int
            }),
            (if offset + limit < v@.len() {
                (offset + limit) as int
            } else {
                v@.len() as int
            }),
        ),
{
    let n = v.len();
    let start: usize = if offset < n as u64 {
        offset as usize
    } else {
        n
    };
    let remaining: usize = n - start;
    let take: usize = if (limit as u64) < remaining as u64 {
        limit as usize
    } else {
        remaining
    };
    let end: usize = start + take;
    let mut out: Vec<usize> = Vec::new();
    let mut i: usize = start;
    proof {
        assert(out@ =~= v@.subrange(start as int, start as int));
    }
    while i < end
        invariant
            start <= i <= end,
            end <= n,
            n == v@.len(),
            out@ == v@.subrange(start as int, i as int),
        decreases end - i,
    {
        out.push(v[i]);
        proof {
            assert(out@ =~= v@.subrange(start as int, i + 1));
        }
        i += 1;
    }
    out
}

impl Store {
    /// The indices of all invoices passing `f`, in ledger order.
    pub fn query_invoices(&self, f: &InvoiceFilterSchema) -> (r: Vec<usize>)
        ensures
            forall|x: int|
                0 <= x < r@.len() ==> r@[x] < self.invoices@.len() && invoice_matches(
                    self.invoices@[r@[x] as int],
                    *f,
                ),
            forall|x: int, y: int| 0 <= x < y < r@.len() ==> r@[x] < r@[y],
            forall|j: int|
                0 <= j < self.invoices@.len() && invoice_matches(#[trigger] self.invoices@[j], *f)
                    ==> exists|x: int| 0 <= x < r@.len() && r@[x] == j,
    {
        let n = self.invoices.len();
        let mut out: Vec<usize> = Vec::new();
        let mut i: usize = 0;
        while i < n
            invariant
                0 <= i <= n,
                n == self.invoices@.len(),
                forall|x: int|
                    0 <= x < out@.len() ==> out@[x] < i && invoice_matches(
                        self.invoices@[out@[x] as int],
                        *f,
                    ),
                forall|x: int, y: int| 0 <= x < y < out@.len() ==> out@[x] < out@[y],
                forall|j: int|
                    0 <= j < i && invoice_matches(#[trigger] self.invoices@[j], *f) ==> exists|
                        x: int,
                    | 0 <= x < out@.len() && out@[x] == j,
            decreases n - i,
        {
            let inv = &self.invoices[i];
            let m = (match &f.address {
                Some(a) => inv.address == *a,
                None => true,
            }) && (match &f.network {
                Some(v) => inv.network == *v,
                None => true,
            }) && (match &f.token {
                Some(v) => inv.token == *v,
                None => true,
            }) && (match f.status {
                Some(st) => inv.status == st,
                None => true,
            });
            if m {
                let ghost out_pre = out@;
                out.push(i);
                proof {
                    assert forall|j: int|
                        0 <= j < i + 1 && invoice_matches(
                            #[trigger] self.invoices@[j],
                            *f,
                        ) implies exists|x: int| 0 <= x < out@.len() && out@[x] == j by {
                        if j < i as int {
                            let x = choose|x: int| 0 <= x < out_pre.len() && out_pre[x] == j;
                            assert(out@[x] == j);
                        } else {
                            assert(out@[out@.len() - 1] == j);
                        }
                    };
                }
            }
            i += 1;
        }
        out
    }

    /// The indices of all payments passing `f`, in ledger order.
    pub fn query_payments(&self, f: &PaymentFilterSchema) -> (r: Vec<usize>)
        ensures
            forall|x: int|
                0 <= x < r@.len() ==> r@[x] < self.payments@.len() && payment_matches(
                    self.payments@[r@[x] as int],
                    *f,
                ),
            forall|x: int, y: int| 0 <= x < y < r@.len() ==> r@[x] < r@[y],
            forall|j: int|
                0 <= j < self.payments@.len() && payment_matches(#[trigger] self.payments@[j], *f)
                    ==> exists|x: int| 0 <= x < r@.len() && r@[x] == j,
    {
        let n = self.payments.len();
        let mut out: Vec<usize> = Vec::new();
        let mut i: usize = 0;
        while i < n
            invariant
                0 <= i <= n,
                n == self.payments@.len(),
                forall|x: int|
                    0 <= x < out@.len() ==> out@[x] < i && payment_matches(
                        self.payments@[out@[x] as int],
                        *f,
                    ),
                forall|x: int, y: int| 0 <= x < y < out@.len() ==> out@[x] < out@[y],
                forall|j: int|
                    0 <= j < i && payment_matches(#[trigger] self.payments@[j], *f) ==> exists|
                        x: int,
                    | 0 <= x < out@.len() && out@[x] == j,
            decreases n - i,
        {
            let p = &self.payments[i];
            let m = (match &f.invoice_id {
                Some(v) => p.invoice_id == *v,
                None => true,
            }) && (match &f.from {
                Some(v) => p.from == *v,
                None => true,
            }) && (match &f.to {
                Some(v) => p.to == *v,
                None => true,
            }) && (match &f.network {
                Some(v) => p.network == *v,
                None => true,
            }) && (match &f.token {
                Some(v) => p.token == *v,
                None => true,
            }) && (match f.block_number {
                Some(v) => p.block_number == v,
                None => true,
            }) && (match f.status {
                Some(st) => p.status == st,
                None => true,
            });
            if m {
                let ghost out_pre = out@;
                out.push(i);
                proof {
                    assert forall|j: int|
                        0 <= j < i + 1 && payment_matches(
                            #[trigger] self.payments@[j],
                            *f,
                        ) implies exists|x: int| 0 <= x < out@.len() && out@[x] == j by {
                        if j < i as int {
                            let x = choose|x: int| 0 <= x < out_pre.len() && out_pre[x] == j;
                            assert(out@[x] == j);
                        } else {
                            assert(out@[out@.len() - 1] == j);
                        }
                    };
                }
            }
            i += 1;
        }
        out
    }

    /// The indices of all webhook jobs passing `f`, in queue order.
    pub fn query_webhooks(&self, f: &WebhookFilterSchema) -> (r: Vec<usize>)
        ensures
            forall|x: int|
                0 <= x < r@.len() ==> r@[x] < self.webhooks@.len() && webhook_matches(
                    self.webhooks@[r@[x] as int],
                    *f,
                ),
            forall|x: int, y: int| 0 <= x < y < r@.len() ==> r@[x] < r@[y],
            forall|j: int|
                0 <= j < self.webhooks@.len() && webhook_matches(#[trigger] self.webhooks@[j], *f)
                    ==> exists|x: int| 0 <= x < r@.len() && r@[x] == j,
    {
        let n = self.webhooks.len();
        let mut out: Vec<usize> = Vec::new();
        let mut i: usize = 0;
        while i < n
            invariant
                0 <= i <= n,
                n == self.webhooks@.len(),
                forall|x: int|
                    0 <= x < out@.len() ==> out@[x] < i && webhook_matches(
                        self.webhooks@[out@[x] as int],
                        *f,
                    ),
                forall|x: int, y: int| 0 <= x < y < out@.len() ==> out@[x] < out@[y],
                forall|j: int|
                    0 <= j < i && webhook_matches(#[trigger] self.webhooks@[j], *f) ==> exists|
                        x: int,
                    | 0 <= x < out@.len() && out@[x] == j,
            decreases n - i,
        {
            let h = &self.webhooks[i];
            let m = (match &f.invoice_id {
                Some(v) => h.invoice_id == *v,
                None => true,
            }) && (match &f.event_type {
                Some(v) => {
                    let name: String = match &h.payload {
                        WebhookEvent::TxDetected { .. } => String::from_str("tx_detected"),
                        WebhookEvent::TxConfirmed { .. } => String::from_str("tx_confirmed"),
                        WebhookEvent::InvoicePaid { .. } => String::from_str("invoice_paid"),
                        WebhookEvent::InvoiceExpired { .. } => String::from_str("invoice_expired"),
                    };
                    name == *v
                },
                None => true,
            }) && (match &f.url {
                Some(v) => h.url == *v,
                None => true,
            }) && (match f.status {
                Some(st) => h.status == st,
                None => true,
            });
            if m {
                let ghost out_pre = out@;
                out.push(i);
                proof {
                    assert forall|j: int|
                        0 <= j < i + 1 && webhook_matches(
                            #[trigger] self.webhooks@[j],
                            *f,
                        ) implies exists|x: int| 0 <= x < out@.len() && out@[x] == j by {
                        if j < i as int {
                            let x = choose|x: int| 0 <= x < out_pre.len() && out_pre[x] == j;
                            assert(out@[x] == j);
                        } else {
                            assert(out@[out@.len() - 1] == j);
                        }
                    };
                }
            }
            i += 1;
        }
        out
    }
}

} // verus!

verus! {

/// Whether `c` is an ASCII space or tab.
pub open spec fn is_ascii_space(c: char) -> bool {
    c == ' ' || c == '\t'
}

/// `s` without leading and trailing ASCII spaces and tabs.
pub open spec fn trimmed(s: Seq<char>) -> Seq<char>
    decreases s.len(),
{
    if s.len() > 0 && is_ascii_space(s[0]) {
        trimmed(s.subrange(1, s.len() as int))
    } else if s.len() > 0 && is_ascii_space(s.last()) {
        trimmed(s.drop_last())
    } else {
        s
    }
}

/// The position of the first `','` in `s`, or `s.len()` when there is none.
pub open spec fn comma_pos(s: Seq<char>) -> int
    decreases s.len(),
{
    if s.len() == 0 {
        0
    } else if s[0] == ',' {
        0
    } else {
        1 + comma_pos(s.subrange(1, s.len() as int))
    }
}

/// The non-empty trimmed segments of a comma-separated list.
pub open spec fn cors_list(s: Seq<char>) -> Seq<Seq<char>>
    decreases s.len(),
{
    let p = comma_pos(s);
    if 0 <= p < s.len() {
        let head = if trimmed(s.subrange(0, p)).len() > 0 {
            seq![trimmed(s.subrange(0, p))]
        } else {
            Seq::<Seq<char>>::empty()
        };
        head + cors_list(s.subrange(p + 1, s.len() as int))
    } else {
        if trimmed(s).len() > 0 {
            seq![trimmed(s)]
        } else {
            Seq::empty()
        }
    }
}

/// Whether `s` names every origin, in any letter case: `all` or `any`.
pub open spec fn is_all_or_any(s: Seq<char>) -> bool {
    s.len() == 3 && (s[0] == 'a' || s[0] == 'A') && ((s[1] == 'l' || s[1] == 'L') && (s[2] == 'l'
        || s[2] == 'L') || (s[1] == 'n' || s[1] == 'N') && (s[2] == 'y' || s[2] == 'Y'))
}

/// The scanned prefix without a comma, together with a comma or the
/// string's end at `p`, fixes `comma_pos`.
proof fn lemma_comma_pos_char(s: Seq<char>, p: int)
    requires
        0 <= p <= s.len(),
        forall|j: int| 0 <= j < p ==> s[j] != ',',
        p == s.len() || s[p] == ',',
    ensures
        comma_pos(s) == p,
    decreases s.len(),
{
    if s.len() > 0 && p > 0 {
        lemma_comma_pos_char(s.subrange(1, s.len() as int), p - 1);
    }
}

/// `s` without leading and trailing ASCII spaces and tabs.
pub fn trim_ascii(s: &str) -> (r: String)
    ensures
        r@ == trimmed(s@),
{
    let n = s.unicode_len();
    let mut a: usize = 0;
    while a < n && (s.get_char(a) == ' ' || s.get_char(a) == '\t')
        invariant
            0 <= a <= n,
            n == s@.len(),
            forall|j: int| 0 <= j < a ==> is_ascii_space(s@[j]),
        decreases n - a,
    {
        a += 1;
    }
    let mut b: usize = n;
    while b > a && (s.get_char(b - 1) == ' ' || s.get_char(b - 1) == '\t')
        invariant
            a <= b <= n,
            n == s@.len(),
            forall|j: int| 0 <= j < a ==> is_ascii_space(s@[j]),
            forall|j: int| b <= j < n ==> is_ascii_space(s@[j]),
        decreases b,
    {
        b -= 1;
    }
    proof {
        lemma_trimmed_bounds(s@, a as int, b as int);
    }
    let mut out = String::new();
    let mut i: usize = a;
    proof {
        assert(out@ =~= s@.subrange(a as int, a as int));
    }
    while i < b
        invariant
            a <= i <= b,
            b <= n,
            n == s@.len(),
            out@ == s@.subrange(a as int, i as int),
        decreases b - i,
    {
        out.push(s.get_char(i));
        proof {
            assert(out@ =~= s@.subrange(a as int, i + 1));
        }
        i += 1;
    }
    out
}

/// Stripping the marked spaces is exactly `trimmed`.
proof fn lemma_trimmed_bounds(s: Seq<char>, a: int, b: int)
    requires
        0 <= a <= b <= s.len(),
        forall|j: int| 0 <= j < a ==> is_ascii_space(s[j]),
        forall|j: int| b <= j < s.len() ==> is_ascii_space(s[j]),
        a == b || (!is_ascii_space(s[a]) && !is_ascii_space(s[b - 1])),
    ensures
        trimmed(s) == s.subrange(a, b),
    decreases s.len(),
{
    if s.len() > 0 && is_ascii_space(s[0]) {
        let t = s.subrange(1, s.len() as int);
        if a == b {
            lemma_trimmed_bounds(t, 0, 0);
            assert(t.subrange(0, 0) =~= s.subrange(a, b));
        } else {
            assert(a >= 1);
            lemma_trimmed_bounds(t, a - 1, b - 1);
            assert(t.subrange(a - 1, b - 1) =~= s.subrange(a, b));
        }
    } else if s.len() > 0 && is_ascii_space(s.last()) {
        let t = s.drop_last();
        assert(b < s.len());
        if a == b {
            lemma_trimmed_bounds(t, 0, 0);
            assert(t.subrange(0, 0) =~= s.subrange(a, b));
        } else {
            lemma_trimmed_bounds(t, a, b);
            assert(t.subrange(a, b) =~= s.subrange(a, b));
        }
    } else {
        assert(a == 0 || !is_ascii_space(s[0])) by {
            if a > 0 {
                assert(is_ascii_space(s[0]));
            }
        };
        assert(a == 0);
        assert(b == s.len());
        assert(s.subrange(0, s.len() as int) =~= s);
    }
}

/// The non-empty trimmed origins of a comma-separated list, in order.
fn collect_origins(s: &str) -> (r: Vec<String>)
    ensures
        r@.len() == cors_list(s@).len(),
        forall|i: int| 0 <= i < r@.len() ==> r@[i]@ == cors_list(s@)[i],
    decreases s@.len(),
{
    let n = s.unicode_len();
    let mut p: usize = 0;
    while p < n && s.get_char(p) != ','
        invariant
            0 <= p <= n,
            n == s@.len(),
            forall|j: int| 0 <= j < p ==> s@[j] != (','),
        decreases n - p,
    {
        p += 1;
    }
    proof {
        lemma_comma_pos_char(s@, p as int);
    }
    if p == n {
        let t = trim_ascii(s);
        let mut out: Vec<String> = Vec::new();
        if t.as_str().unicode_len() > 0 {
            out.push(t);
        }
        out
    } else {
        let head = s.substring_char(0, p);
        let rest = s.substring_char(p + 1, n);
        let mut out = collect_origins(rest);
        let t = trim_ascii(head);
        if t.as_str().unicode_len() > 0 {
            out.insert(0, t);
            proof {
                assert(cors_list(s@) =~= seq![trimmed(s@.subrange(0, p as int))] + cors_list(
                    s@.subrange(p as int + 1, n as int),
                ));
            }
        } else {
            proof {
                assert(cors_list(s@) =~= cors_list(s@.subrange(p as int + 1, n as int)));
            }
        }
        out
    }
}

/// Parses the allowed-origins setting: `all` or `any` (in any case) allows
/// every origin without credentials; otherwise the comma-separated origins
/// are trimmed, empties dropped, and credentials are allowed.
pub fn cors_from_str(raw: &str) -> (r: (Vec<String>, bool))
    ensures
        is_all_or_any(raw@) ==> r.0@.len() == 0 && r.1 == false,
        !is_all_or_any(raw@) ==> r.1 == true && r.0@.len() == cors_list(raw@).len() && (forall|
            i: int,
        | 0 <= i < r.0@.len() ==> r.0@[i]@ == cors_list(raw@)[i]),
{
    let n = raw.unicode_len();
    if n == 3 {
        let c0 = raw.get_char(0);
        let c1 = raw.get_char(1);
        let c2 = raw.get_char(2);
        let all = (c0 == 'a' || c0 == 'A') && ((c1 == 'l' || c1 == 'L') && (c2 == 'l' || c2 == 'L')
            || (c1 == 'n' || c1 == 'N') && (c2 == 'y' || c2 == 'Y'));
        if all {
            return (Vec::new(), false);
        }
    }
    (collect_origins(raw), true)
}

} // verus!
