# weldscope

In-process OCT weld-quality monitoring: a simulated keyhole, an SD-OCT FFT
chain, physical quality features and a softmax classifier, connected by the
`WS01` binary framing.

- `src/` is the verified library (Verus): the `WS01` frame envelope and its
  laws (`frame`, `bytes`), the payload codecs over raw sample words
  (`codec`), and the integer logic of the stages: the sample window, pore
  count and humping sub-windows (`features`), nearest-rank selection under the
  IEEE total order (`percentile`), the peak search windows (`peak`), defect
  kinds and the frame hash (`sim`) and the class lookup (`ai`).
- `app/` holds the floating-point signal chain, the TCP transport and the
  processes (`acq`, `core`, `features`, `ai`, `offline`, `depth-csv`).
- `tests/` exercises the library.
