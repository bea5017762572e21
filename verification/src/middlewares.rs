pub mod dummy_middleware;
pub mod encoding_middleware;
pub mod http_middleware;
pub mod logging_middleware;
pub mod panic_middleware;
pub mod routing_middleware;
pub mod static_files_middleware;
pub mod statistic_middleware;

pub use dummy_middleware::DummyMiddleware;
pub use encoding_middleware::EncodingMiddleware;
pub use http_middleware::HttpMiddleware;
pub use http_middleware::MiddlewareStep;
pub use logging_middleware::LoggingMiddleware;
pub use panic_middleware::PanicMiddleware;
pub use routing_middleware::Handler;
pub use routing_middleware::RoutingMiddleware;
pub use static_files_middleware::FileSystem;
pub use static_files_middleware::StaticFilesMiddleware;
pub use statistic_middleware::StatisticMiddleware;
