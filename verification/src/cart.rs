//! The rules of the cart service: where it listens, whom it asks for stock,
//! and when an item may go into a cart.

use crate::collector::STATUS_OK;
use crate::collector::STATUS_SERVER_ERROR;
use crate::text::decimal;
use crate::text::push_decimal;
use vstd::prelude::*;

verus! {

/// The name under which the cart service reports its spans.
pub const SERVER_NAME: &'static str = "cart_server";

/// What the cart service is started with.
#[derive(Debug, PartialEq, Eq)]
pub struct Configuration {
    pub host: String,
    pub port: u16,
    pub stock_service_url: String,
    pub collector_url: String,
}

/// The body of a request to put an item into the cart.
#[derive(Debug, PartialEq, Eq)]
pub struct Body {
    pub item_id: String,
}

/// Why an item did not go into the cart.
#[derive(Debug, Clone, Copy, PartialEq, Eq, Structural)]
pub enum CartError {
    /// The stock service gave no answer that could be used.
    StockUnknown,
    /// The stock service answered that nothing is left.
    NoStock,
}

impl CartError {
    /// A sentence that says why the item did not go into the cart.
    pub fn message(&self) -> (text: &'static str)
        ensures
            text@ == match *self {
                CartError::StockUnknown => "Failed to get stock"@,
                CartError::NoStock => "No stock available"@,
            },
    {
        match self {
            CartError::StockUnknown => "Failed to get stock",
            CartError::NoStock => "No stock available",
        }
    }
}

/// The configuration of a cart service on the local host.
pub fn load_config() -> (config: Configuration)
    ensures
        config.host@ == "127.0.0.1"@,
        config.port == 12345,
        config.stock_service_url@ == "https://stock-server"@,
        config.collector_url@ == "http://127.0.0.1:14268"@,
{
    Configuration {
        host: String::from_str("127.0.0.1"),
        port: 12345,
        stock_service_url: String::from_str("https://stock-server"),
        collector_url: String::from_str("http://127.0.0.1:14268"),
    }
}

impl Clone for Configuration {
    fn clone(&self) -> (copy: Configuration)
        ensures
            copy.host@ == self.host@,
            copy.port == self.port,
            copy.stock_service_url@ == self.stock_service_url@,
            copy.collector_url@ == self.collector_url@,
    {
        Configuration {
            host: self.host.clone(),
            port: self.port,
            stock_service_url: self.stock_service_url.clone(),
            collector_url: self.collector_url.clone(),
        }
    }
}

impl Configuration {
    /// The address to listen on: host, a colon, and the port in decimal.
    pub fn address(&self) -> (address: String)
        ensures
            address@ == self.host@ + ":"@ + decimal(self.port as nat),
    {
        let mut address = self.host.clone().concat(":");
        push_decimal(&mut address, self.port as u64);
        address
    }

    /// The address to which the spans of the service are posted.
    pub fn traces_endpoint(&self) -> (url: String)
        ensures
            url@ == self.collector_url@ + "/api/traces"@,
    {
        traces_endpoint(self.collector_url.as_str())
    }
}

/// The address under which the collector at `collector_url` takes spans.
pub fn traces_endpoint(collector_url: &str) -> (url: String)
    ensures
        url@ == collector_url@ + "/api/traces"@,
{
    String::from_str(collector_url).concat("/api/traces")
}

/// The address that tells the stock of an item.
pub fn stock_url(base_url: &str, item_id: &str) -> (url: String)
    ensures
        url@ == base_url@ + "/stock/"@ + item_id@,
{
    String::from_str(base_url).concat("/stock/").concat(item_id)
}

/// Decides whether an item goes into the cart, given the stock that the
/// stock service reported, or `None` where it reported none: only an item of
/// which something is left goes in.
pub fn add_item_to_cart(stock: Option<u32>) -> (result: Result<(), CartError>)
    ensures
        result == (match stock {
            None => Err::<(), CartError>(CartError::StockUnknown),
            Some(count) => if count == 0 {
                Err::<(), CartError>(CartError::NoStock)
            } else {
                Ok::<(), CartError>(())
            },
        }),
{
    match stock {
        None => Err(CartError::StockUnknown),
        Some(count) => {
            if count == 0 {
                Err(CartError::NoStock)
            } else {
                Ok(())
            }
        },
    }
}

/// The status that answers a request to put an item into the cart: `200`
/// where stock is left, `500` in every other case.
pub fn handler(stock: Option<u32>) -> (status: u16)
    ensures
        status == (if stock matches Some(count) && count > 0 {
            STATUS_OK
        } else {
            STATUS_SERVER_ERROR
        }),
{
    match add_item_to_cart(stock) {
        Ok(()) => STATUS_OK,
        Err(_) => STATUS_SERVER_ERROR,
    }
}

/// Whether a span of this name is reported. The spans that only parse or
/// encode headers are left out.
pub fn reports_span(name: &str) -> (reported: bool)
    ensures
        reported == (name@ != "parse_headers"@ && name@ != "encode_headers"@),
{
    let name = String::from_str(name);
    name != String::from_str("parse_headers") && name != String::from_str("encode_headers")
}

} // verus!
