pub mod partial_non_lazy_continuation;
