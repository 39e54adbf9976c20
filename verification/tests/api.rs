use necko3::api::{
    default_page, default_page_size, page_of, page_slice, ApiError, ApiResponse,
    InvoiceFilterSchema, Pagination, PaginationParams,
};
use necko3::model::{CreateInvoiceReq, InvoiceStatus};
use necko3::store::Store;

#[test]
fn pagination_arithmetic() {
    assert_eq!(default_page_size(), 20);
    assert_eq!(default_page(), 1);
    let p = PaginationParams { page_size: 20, page: 0 };
    assert_eq!(p.to_pagination(), Pagination { limit: 20, offset: 0 });
    let p = PaginationParams { page_size: 20, page: 3 };
    assert_eq!(p.to_pagination(), Pagination { limit: 20, offset: 40 });
    // The page size is capped at one hundred.
    let p = PaginationParams { page_size: 500, page: 2 };
    assert_eq!(p.to_pagination(), Pagination { limit: 100, offset: 100 });
    assert_eq!(page_of(20, 40), 3);
    assert_eq!(page_of(0, 40), 1);
}

#[test]
fn page_slice_windows() {
    let v: Vec<usize> = vec![10, 11, 12, 13, 14];
    assert_eq!(page_slice(&v, 2, 0), vec![10, 11]);
    assert_eq!(page_slice(&v, 2, 2), vec![12, 13]);
    assert_eq!(page_slice(&v, 2, 4), vec![14]);
    assert_eq!(page_slice(&v, 2, 6), Vec::<usize>::new());
    assert_eq!(page_slice(&v, 100, 0), v);
}

#[test]
fn api_error_status_codes() {
    assert_eq!(ApiError::BadRequest("x".to_string()).status_code(), 400);
    assert_eq!(ApiError::NotFound("x".to_string()).status_code(), 404);
    assert_eq!(
        ApiError::InternalServerError("x".to_string()).status_code(),
        500
    );
}

#[test]
fn api_response_envelopes() {
    let r = ApiResponse::success(7u32);
    assert_eq!(r.status, "success");
    assert_eq!(r.data, Some(7));
    assert!(r.message.is_none());
    let r: ApiResponse<u32> = ApiResponse::ok();
    assert_eq!(r.status, "success");
    assert!(r.data.is_none());
    let r: ApiResponse<u32> = ApiResponse::error("boom".to_string());
    assert_eq!(r.status, "error");
    assert_eq!(r.message.as_deref(), Some("boom"));
}

const XPUB: &str = "xpub661MyMwAqRbcFtXgS5sYJABqqG9YLmC4Q1Rdap9gSE8NqtwybGhePY2gZ29ESFjqJoCu1Rupje8YtGqsefD265TMg7usUDFdp6W1EGMcet8";

fn setup_with_invoices() -> Store {
    let mut store = Store::new();
    store
        .add_chain(necko3::model::ChainConfig {
            name: "Polygon".to_string(),
            rpc_urls: vec![],
            chain_type: necko3::model::ChainType::EVM,
            xpub: XPUB.to_string(),
            native_symbol: "POL".to_string(),
            decimals: 18,
            last_processed_block: 0,
            block_lag: 3,
            required_confirmations: 2,
        })
        .unwrap();
    store
        .add_token(
            &"Polygon".to_string(),
            necko3::model::TokenConfig {
                symbol: "USDC".to_string(),
                contract: "0xc".to_string(),
                decimals: 6,
            },
        )
        .unwrap();
    for amount in ["1", "2", "3"] {
        let req = CreateInvoiceReq {
            amount: amount.to_string(),
            token: "USDC".to_string(),
            network: "Polygon".to_string(),
            webhook_url: None,
            webhook_secret: None,
            expire_after: None,
        };
        store.create_invoice(&req, 1_000).unwrap();
    }
    store
}

#[test]
fn invoice_queries_filter_and_paginate() {
    let mut store = setup_with_invoices();
    let id = store.invoices[1].id.clone();
    store.cancel_invoice(&id).unwrap();

    let all = InvoiceFilterSchema {
        address: None,
        network: None,
        token: None,
        status: None,
        pagination: PaginationParams { page_size: 20, page: 1 },
    };
    assert_eq!(store.query_invoices(&all), vec![0, 1, 2]);

    let pending = InvoiceFilterSchema {
        status: Some(InvoiceStatus::Pending),
        ..all
    };
    assert_eq!(store.query_invoices(&pending), vec![0, 2]);

    let cancelled = InvoiceFilterSchema {
        status: Some(InvoiceStatus::Cancelled),
        address: None,
        network: Some("Polygon".to_string()),
        token: None,
        pagination: PaginationParams { page_size: 20, page: 1 },
    };
    assert_eq!(store.query_invoices(&cancelled), vec![1]);

    let matches = store.query_invoices(&pending);
    let page = page_slice(&matches, 1, 1);
    assert_eq!(page, vec![2]);
}

#[test]
fn getters_return_copies() {
    let store = setup_with_invoices();
    let chain = store.get_chain(&"Polygon".to_string()).unwrap();
    assert_eq!(chain.name, "Polygon");
    assert_eq!(chain.required_confirmations, 2);
    assert!(store.get_chain(&"Mainnet".to_string()).is_none());
    assert_eq!(store.get_chains().len(), 1);
    let token = store
        .get_token(&"Polygon".to_string(), &"USDC".to_string())
        .unwrap();
    assert_eq!(token.decimals, 6);
    assert_eq!(store.get_tokens(&"Polygon".to_string()).len(), 1);
    let id = store.invoices[0].id.clone();
    let inv = store.get_invoice_by_id(&id).unwrap();
    assert_eq!(inv.amount, "1");
    assert_eq!(inv.network, "Polygon");
    let min = store.get_min_chain(&"Polygon".to_string()).unwrap();
    assert_eq!(min.native_symbol, "POL");
}

#[test]
fn cors_setting_is_parsed() {
    let (origins, creds) = necko3::api::cors_from_str("all");
    assert!(origins.is_empty());
    assert!(!creds);
    let (origins, creds) = necko3::api::cors_from_str("Any");
    assert!(origins.is_empty());
    assert!(!creds);
    let (origins, creds) =
        necko3::api::cors_from_str(" https://a.example , https://b.example ,, ");
    assert_eq!(origins, vec!["https://a.example", "https://b.example"]);
    assert!(creds);
    let (origins, creds) = necko3::api::cors_from_str("allx");
    assert_eq!(origins, vec!["allx"]);
    assert!(creds);
}
